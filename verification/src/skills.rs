//! The skill catalog: loaded capability packages, keyed by unique name.
//! Scanning directories and parsing the YAML front matter happen outside;
//! the definition-file split, the catalog's uniqueness rule (last loaded
//! wins) and the lookups are verified here.
use vstd::prelude::*;

verus! {

use vstd::string::StringExecFns;
use crate::llm::Tool;
use crate::llm::ToolView;
use crate::text::str_eq;
use crate::text::chars_of;
use crate::text::string_from_chars;
use crate::text::slice_starts_at;
use crate::text::starts_with_seq;
use crate::text::occurs_at;
use crate::text::trim_seq;
use crate::text::trim_bounds;

/// What a skill declares about itself: its unique name, a description used
/// for retrieval, and the tools it offers.
#[derive(Debug, Clone)]
pub struct SkillMetadata {
    pub name: String,
    pub description: String,
    pub tools: Vec<Tool>,
}

/// One loaded capability package.
#[derive(Debug, Clone)]
pub struct Skill {
    pub path: String,
    pub metadata: SkillMetadata,
    pub instructions: String,
}

pub struct SkillView {
    pub path: Seq<char>,
    pub name: Seq<char>,
    pub description: Seq<char>,
    pub tools: Seq<ToolView>,
    pub instructions: Seq<char>,
}

impl View for Skill {
    type V = SkillView;

    open spec fn view(&self) -> SkillView {
        SkillView {
            path: self.path@,
            name: self.metadata.name@,
            description: self.metadata.description@,
            tools: self.metadata.tools@.map_values(|t: Tool| t@),
            instructions: self.instructions@,
        }
    }
}

/// The views of a declared tool list.
pub open spec fn meta_tool_views(ts: Seq<Tool>) -> Seq<ToolView> {
    ts.map_values(|t: Tool| t@)
}

/// The loaded catalog.
pub struct SkillsManager {
    pub skills: Vec<Skill>,
}

/// The catalog's names, in load order.
pub open spec fn catalog_names(skills: Seq<Skill>) -> Seq<Seq<char>> {
    skills.map_values(|s: Skill| s@.name)
}

/// No two catalog entries share a name.
pub open spec fn names_unique(skills: Seq<Skill>) -> bool {
    forall|i: int, j: int|
        0 <= i < j < skills.len() ==> catalog_names(skills)[i] != catalog_names(skills)[j]
}

impl SkillsManager {
    /// An empty catalog.
    pub fn new() -> (r: SkillsManager)
        ensures
            r.skills@.len() == 0,
            names_unique(r.skills@),
    {
        SkillsManager { skills: Vec::new() }
    }

    /// Adds one loaded skill. Names are unique: a skill loaded later under
    /// an existing name overwrites the earlier entry in place; a new name
    /// goes to the end.
    pub fn add_skill_entry(&mut self, skill: Skill)
        requires
            names_unique(old(self).skills@),
        ensures
            names_unique(final(self).skills@),
            catalog_names(old(self).skills@).contains(skill@.name) ==> exists|i: int|
                0 <= i < old(self).skills@.len() && catalog_names(old(self).skills@)[i]
                    == skill@.name && final(self).skills@ == old(self).skills@.update(i, skill),
            !catalog_names(old(self).skills@).contains(skill@.name) ==> final(self).skills@ == old(
                self,
            ).skills@.push(skill),
    {
        let ghost names0 = catalog_names(self.skills@);
        let mut i: usize = 0;
        while i < self.skills.len()
            invariant
                i <= self.skills@.len(),
                self.skills@ == old(self).skills@,
                names_unique(old(self).skills@),
                names0 == catalog_names(self.skills@),
                forall|k: int| 0 <= k < i ==> names0[k] != skill@.name,
            decreases self.skills@.len() - i,
        {
            if str_eq(self.skills[i].metadata.name.as_str(), skill.metadata.name.as_str()) {
                assert(names0[i as int] == skill@.name);
                let ghost idx = i as int;
                self.skills.set(i, skill);
                proof {
                    assert(self.skills@ == old(self).skills@.update(idx, skill));
                    assert(names0.contains(skill@.name));
                    assert forall|a: int, b: int|
                        0 <= a < b < self.skills@.len() implies catalog_names(self.skills@)[a]
                        != catalog_names(self.skills@)[b] by {
                        assert(catalog_names(self.skills@)[a] == if a == idx {
                            skill@.name
                        } else {
                            names0[a]
                        });
                        assert(catalog_names(self.skills@)[b] == if b == idx {
                            skill@.name
                        } else {
                            names0[b]
                        });
                    }
                }
                return ;
            }
            i = i + 1;
        }
        assert(forall|k: int| 0 <= k < names0.len() ==> names0[k] != skill@.name);
        assert(!names0.contains(skill@.name));
        let ghost pre = self.skills@;
        self.skills.push(skill);
        proof {
            assert(self.skills@ == pre.push(skill));
            assert forall|a: int, b: int|
                0 <= a < b < self.skills@.len() implies catalog_names(self.skills@)[a]
                != catalog_names(self.skills@)[b] by {
                if b < pre.len() {
                    assert(catalog_names(self.skills@)[a] == names0[a]);
                    assert(catalog_names(self.skills@)[b] == names0[b]);
                } else {
                    assert(catalog_names(self.skills@)[b] == skill@.name);
                    assert(catalog_names(self.skills@)[a] == names0[a]);
                }
            }
        }
    }

    /// The skill of that name, if the catalog holds one.
    pub fn get_skill(&self, name: &str) -> (r: Option<&Skill>)
        ensures
            r is Some <==> catalog_names(self.skills@).contains(name@),
            r matches Some(s) ==> exists|i: int|
                0 <= i < self.skills@.len() && catalog_names(self.skills@)[i] == name@ && *s
                    == self.skills@[i],
    {
        let mut i: usize = 0;
        while i < self.skills.len()
            invariant
                i <= self.skills@.len(),
                forall|k: int| 0 <= k < i ==> catalog_names(self.skills@)[k] != name@,
            decreases self.skills@.len() - i,
        {
            if str_eq(self.skills[i].metadata.name.as_str(), name) {
                assert(catalog_names(self.skills@)[i as int] == name@);
                return Some(&self.skills[i]);
            }
            i = i + 1;
        }
        assert(forall|k: int|
            0 <= k < catalog_names(self.skills@).len() ==> catalog_names(self.skills@)[k]
                != name@);
        None
    }

    /// Every entry's whole metadata — name, description and declared
    /// tools — in load order.
    pub fn list_skills(&self) -> (r: Vec<SkillMetadata>)
        ensures
            r@.len() == self.skills@.len(),
            forall|i: int|
                0 <= i < r@.len() ==> r@[i].name@ == self.skills@[i]@.name && r@[i].description@
                    == self.skills@[i]@.description,
            forall|i: int|
                0 <= i < r@.len() ==> #[trigger] meta_tool_views(r@[i].tools@)
                    == self.skills@[i]@.tools,
    {
        let mut out: Vec<SkillMetadata> = Vec::new();
        let mut i: usize = 0;
        while i < self.skills.len()
            invariant
                i <= self.skills@.len(),
                out@.len() == i,
                forall|k: int|
                    0 <= k < i ==> out@[k].name@ == self.skills@[k]@.name && out@[k].description@
                        == self.skills@[k]@.description,
                forall|k: int|
                    0 <= k < i ==> #[trigger] meta_tool_views(out@[k].tools@)
                        == self.skills@[k]@.tools,
            decreases self.skills@.len() - i,
        {
            let m = &self.skills[i].metadata;
            let tools = clone_tools(&m.tools);
            let ghost tv = tools@;
            proof {
                assert(tv.len() == self.skills@[i as int].metadata.tools@.len());
                assert(forall|j: int|
                    0 <= j < tv.len() ==> (#[trigger] tv[j])@
                        == self.skills@[i as int].metadata.tools@[j]@);
            }
            let ghost out_pre = out@;
            out.push(
                SkillMetadata { name: m.name.clone(), description: m.description.clone(), tools },
            );
            proof {
                assert forall|k: int|
                    0 <= k < i + 1 implies #[trigger] meta_tool_views(out@[k].tools@)
                        == self.skills@[k]@.tools by {
                    if k < i {
                        assert(out@[k] == out_pre[k]);
                        assert(meta_tool_views(out_pre[k].tools@) == self.skills@[k]@.tools);
                    } else {
                        assert(out@[k].tools@ == tv);
                        assert(meta_tool_views(tv) =~= self.skills@[k]@.tools);
                    }
                }
            }
            i = i + 1;
        }
        out
    }
}

/// A copy of a tool list, entry for entry.
pub fn clone_tools(v: &Vec<Tool>) -> (r: Vec<Tool>)
    ensures
        r@.len() == v@.len(),
        forall|i: int| 0 <= i < v@.len() ==> r@[i]@ == v@[i]@,
{
    let mut out: Vec<Tool> = Vec::new();
    let mut i: usize = 0;
    while i < v.len()
        invariant
            i <= v@.len(),
            out@.len() == i,
            forall|k: int| 0 <= k < i ==> out@[k]@ == v@[k]@,
        decreases v@.len() - i,
    {
        let t = &v[i];
        out.push(
            Tool {
                name: t.name.clone(),
                description: t.description.clone(),
                parameters: t.parameters.clone(),
                exec_cmd: crate::config::clone_opt_text(&t.exec_cmd),
                working_dir: crate::config::clone_opt_text(&t.working_dir),
            },
        );
        i = i + 1;
    }
    out
}

/// Splits a skill definition file into its front matter and its
/// instruction body: the text between the opening `---` and the next
/// `---`, and everything after that, trimmed. A file that does not open
/// with `---`, or never closes it, has no valid front matter.
pub fn split_frontmatter(content: &str) -> (r: Option<(String, String)>)
    ensures
        r is Some <==> starts_with_seq(content@, "---"@) && (exists|i: int|
            occurs_at(content@.skip(3), "---"@, i)),
        r matches Some(pr) ==> exists|i: int|
            {
                &&& #[trigger] occurs_at(content@.skip(3), "---"@, i)
                &&& forall|j: int| 0 <= j < i ==> !occurs_at(content@.skip(3), "---"@, j)
                &&& pr.0@ == content@.skip(3).take(i)
                &&& pr.1@ == trim_seq(content@.skip(3).skip(i + 3))
            },
{
    let v = chars_of(content);
    let sv = v.as_slice();
    let marker = chars_of("---");
    assert(sv@.skip(0) =~= content@);
    if !slice_starts_at(sv, 0, marker.as_slice()) {
        return None;
    }
    proof {
        reveal_strlit("---");
        assert("---"@.len() == 3);
    }
    let ghost rest = content@.skip(3);
    let n = sv.len();
    let mut i: usize = 3;
    while i < n && n - i >= 3
        invariant
            3 <= i <= n,
            n == sv@.len(),
            sv@ == content@,
            rest == content@.skip(3),
            starts_with_seq(content@, "---"@),
            "---"@.len() == 3,
            forall|j: int| 0 <= j < i - 3 ==> !occurs_at(rest, "---"@, j),
        decreases n - i,
    {
        proof {
            reveal_strlit("---");
        }
        if sv[i] == '-' && sv[i + 1] == '-' && sv[i + 2] == '-' {
            let ghost fi = i - 3;
            proof {
                assert(rest.subrange(fi as int, fi + 3) =~= seq!['-', '-', '-']);
                assert("---"@ =~= seq!['-', '-', '-']);
                assert(occurs_at(rest, "---"@, fi as int));
            }
            let fm = string_from_chars(vstd::slice::slice_subrange(sv, 3, i));
            assert(fm@ =~= rest.take(fi as int));
            let (a, b) = trim_bounds(sv, i + 3, n);
            let body = string_from_chars(vstd::slice::slice_subrange(sv, a, b));
            proof {
                assert(sv@.subrange(i + 3 as int, n as int) =~= rest.skip(fi + 3));
                assert(body@ == trim_seq(rest.skip(fi + 3)));
            }
            return Some((fm, body));
        }
        proof {
            let j = i - 3;
            if occurs_at(rest, "---"@, j) {
                assert(rest.subrange(j, j + 3)[0] == rest[j]);
                assert(rest.subrange(j, j + 3)[1] == rest[j + 1]);
                assert(rest.subrange(j, j + 3)[2] == rest[j + 2]);
                assert(rest[j] == content@[j + 3]);
                assert("---"@[0] == '-' && "---"@[1] == '-' && "---"@[2] == '-');
                assert(false);
            }
        }
        i = i + 1;
    }
    proof {
        reveal_strlit("---");
        assert forall|j: int| !occurs_at(rest, "---"@, j) by {
            if 0 <= j && j + 3 <= rest.len() {
                assert(j < i - 3);
            }
        }
    }
    None
}

} // verus!
