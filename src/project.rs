//! A presentation project on disk: where its slides, style file and templates are.

use vstd::prelude::*;
use crate::ramen::{run_code, plan_matches, language_of, RunPlan};
use crate::style::StyleConfig;
use crate::styler::{decimal, get_code, not_found_message, CodeRegistry};
use crate::text::{chars_of, extend, string_of};

verus! {

/// `child` appended to the path `base` as a component: a child that starts with `/`
/// replaces the base; an empty base gives the child; otherwise one `/` separates them.
pub open spec fn path_join(base: Seq<char>, child: Seq<char>) -> Seq<char> {
    if child.len() > 0 && child[0] == '/' {
        child
    } else if base.len() == 0 {
        child
    } else if base.last() == '/' {
        base + child
    } else {
        base + seq!['/'] + child
    }
}

pub fn join_path(base: &Vec<char>, child: &Vec<char>) -> (r: Vec<char>)
    ensures
        r@ == path_join(base@, child@),
{
    if child.len() > 0 && child[0] == '/' {
        child.clone()
    } else if base.len() == 0 {
        child.clone()
    } else {
        let mut out = base.clone();
        assert(out@ =~= base@);
        if base[base.len() - 1] != '/' {
            out.push('/');
        }
        extend(&mut out, child);
        out
    }
}

/// A project: its directory and the template directory it is made from.
pub struct Project {
    fs_path: String,
    template: String,
}

impl Project {
    pub closed spec fn dir(&self) -> Seq<char> {
        self.fs_path@
    }

    pub closed spec fn template_dir(&self) -> Seq<char> {
        self.template@
    }

    /// The project `name` under `workdir`, made from the template `template` under
    /// `workdir/templates`.
    pub fn new(name: &str, workdir: &str, template: &str) -> (r: Project)
        ensures
            r.dir() == path_join(workdir@, name@),
            r.template_dir() == path_join(path_join(workdir@, "templates"@), template@),
    {
        let w = chars_of(workdir);
        let fs = join_path(&w, &chars_of(name));
        let t = join_path(&w, &chars_of("templates"));
        let tt = join_path(&t, &chars_of(template));
        Project { fs_path: string_of(&fs), template: string_of(&tt) }
    }

    pub fn fs_path(&self) -> (r: String)
        ensures
            r@ == self.dir(),
    {
        self.fs_path.clone()
    }

    pub fn template(&self) -> (r: String)
        ensures
            r@ == self.template_dir(),
    {
        self.template.clone()
    }

    /// The file of slide `n`: `n.md` in the project directory.
    pub fn slide_path(&self, n: u32) -> (r: String)
        ensures
            r@ == path_join(self.dir(), decimal(n as nat) + ".md"@),
    {
        let mut file = crate::styler::decimal_chars(n as u64);
        let ext = chars_of(".md");
        extend(&mut file, &ext);
        let p = join_path(&chars_of(self.fs_path.as_str()), &file);
        string_of(&p)
    }

    /// The project's style file, `style.yml` in its directory.
    pub fn style_path(&self) -> (r: String)
        ensures
            r@ == path_join(self.dir(), "style.yml"@),
    {
        let p = join_path(&chars_of(self.fs_path.as_str()), &chars_of("style.yml"));
        string_of(&p)
    }

    /// The file `name` in the template directory.
    pub fn template_file(&self, name: &str) -> (r: String)
        ensures
            r@ == path_join(self.template_dir(), name@),
    {
        let p = join_path(&chars_of(self.template.as_str()), &chars_of(name));
        string_of(&p)
    }

    /// The file `name` in the project directory.
    pub fn project_file(&self, name: &str) -> (r: String)
        ensures
            r@ == path_join(self.dir(), name@),
    {
        let p = join_path(&chars_of(self.fs_path.as_str()), &chars_of(name));
        string_of(&p)
    }

    /// Plans the run of the code block `num` (from 1) of the current slide: an error naming
    /// the block where there is none, or naming the language where it cannot be run.
    pub fn run_code(num: usize, codes: &CodeRegistry, env_map: &StyleConfig) -> (r: Result<RunPlan, String>)
        ensures
            !(1 <= num <= codes@.len()) ==> (r matches Err(m) && m@ == not_found_message(num as nat)),
            1 <= num <= codes@.len() ==> match language_of(codes@[num - 1].0) {
                Some(l) => r matches Ok(p) && plan_matches(p, l, codes@[num - 1].1, env_map@),
                None => r matches Err(m) && m@ == "Language not supported"@,
            },
    {
        match get_code(codes, num) {
            Ok((lang, code)) => run_code(lang, code, env_map),
            Err(e) => Err(e),
        }
    }
}

} // verus!
