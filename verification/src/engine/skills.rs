//! Skills: prompt packages that the model loads on demand.
//!
//! A skill is a folder with a `SKILL.md`: a front matter with `name` and `description`, and a
//! body of instructions. Skills are found in two folders of the user and in one of the project.

use vstd::prelude::*;

use crate::catalog::{by_name, file, filed, filing_keeps_order, views, Named};
use crate::engine::plugins::{below_workspace, dirs_view, may_be_below};
use crate::paths::{join_path, may_join};
use crate::text::{
    a_search_finds_what_is_there, after, between, chars_of, find, find_of, first_from_is_first,
    opt_str, opt_text, same, slice, split, split_of, starts, string_of, strip_prefix, texts, trim,
    trim_of, within,
};

verus! {

#[derive(Debug)]
pub struct SkillMeta {
    /// The name of the folder, by which the skill is asked for.
    pub name: String,
    /// The name in the front matter, for people to read; that of the folder where it has none.
    pub display: String,
    pub description: String,
    pub path: String,
    /// "global" or "project".
    pub scope: String,
}

pub struct SkillV {
    pub name: Seq<char>,
    pub display: Seq<char>,
    pub description: Seq<char>,
    pub path: Seq<char>,
    pub scope: Seq<char>,
}

impl View for SkillMeta {
    type V = SkillV;

    open spec fn view(&self) -> SkillV {
        SkillV {
            name: self.name@,
            display: self.display@,
            description: self.description@,
            path: self.path@,
            scope: self.scope@,
        }
    }
}

impl Named for SkillMeta {
    open spec fn name_in(v: SkillV) -> Seq<char> {
        v.name
    }

    fn name_ref(&self) -> (r: &String) {
        &self.name
    }
}

// ---- front matter -------------------------------------------------------------------------------

pub open spec fn is_quote(c: char) -> bool {
    c == '"' || c == '\''
}

/// `s` without the quotes that it begins with.
pub open spec fn unquoted_start(s: Seq<char>) -> Seq<char>
    decreases s.len(),
{
    if s.len() > 0 && is_quote(s[0]) {
        unquoted_start(s.skip(1))
    } else {
        s
    }
}

/// `s` without the quotes that it ends with.
pub open spec fn unquoted_end(s: Seq<char>) -> Seq<char>
    decreases s.len(),
{
    if s.len() > 0 && is_quote(s.last()) {
        unquoted_end(s.drop_last())
    } else {
        s
    }
}

fn unquote(s: &str) -> (r: String)
    ensures
        r@ == unquoted_end(unquoted_start(s@)),
{
    let v = chars_of(s);
    let mut a: usize = 0;
    assert(s@.skip(0) =~= s@);
    while a < v.len() && (v[a] == '"' || v[a] == '\'')
        invariant
            a <= v.len(),
            v@ == s@,
            unquoted_start(s@) == unquoted_start(s@.skip(a as int)),
        decreases v.len() - a,
    {
        assert(s@.skip(a as int).skip(1) =~= s@.skip(a + 1));
        a += 1;
    }
    let ghost t = s@.skip(a as int);
    assert(unquoted_start(s@) == t);
    let mut b: usize = v.len();
    assert(t.take(t.len() as int) =~= t);
    while b > a && (v[b - 1] == '"' || v[b - 1] == '\'')
        invariant
            a <= b <= v.len(),
            v@ == s@,
            t == s@.skip(a as int),
            unquoted_end(t) == unquoted_end(t.take(b - a)),
        decreases b,
    {
        assert(t.take(b - a).drop_last() =~= t.take(b - a - 1));
        b -= 1;
    }
    assert(v@.subrange(a as int, b as int) =~= t.take(b - a));
    string_of(&v, a, b)
}

/// The text between the line that opens a front matter and the one that closes it.
pub open spec fn front(body: Seq<char>) -> Option<Seq<char>> {
    match after(body, "---"@) {
        Some(b) => match find_of(b, "\n---"@) {
            Some(end) => Some(b.take(end)),
            None => None,
        },
        None => None,
    }
}

/// The value of the first line that gives one to `key`, without whitespace and quotes around it.
pub open spec fn value_in(lines: Seq<Seq<char>>, key: Seq<char>) -> Option<Seq<char>>
    decreases lines.len(),
{
    if lines.len() == 0 {
        None
    } else {
        match after(trim_of(lines[0]), key + ":"@) {
            Some(v) => Some(unquoted_end(unquoted_start(trim_of(v)))),
            None => value_in(lines.skip(1), key),
        }
    }
}

/// What a front matter says of `key`.
pub open spec fn front_value(body: Seq<char>, key: Seq<char>) -> Option<Seq<char>> {
    match front(body) {
        Some(fm) => value_in(split_of(fm, '\n'), key),
        None => None,
    }
}

/// What the front matter of a skill says of `key`.
pub fn frontmatter(body: &str, key: &str) -> (r: Option<String>)
    ensures
        opt_text(r) == front_value(body@, key@),
{
    let b: String = match strip_prefix(body, "---") {
        Some(b) => b,
        None => {
            return None;
        },
    };
    let end: usize = match find(b.as_str(), "\n---") {
        Some(e) => e,
        None => {
            return None;
        },
    };
    proof {
        first_from_is_first(b@, "\n---"@, 0);
    }
    let fm = slice(b.as_str(), 0, end);
    assert(fm@ =~= b@.take(end as int));
    let mut want = key.to_string();
    want.append(":");
    let lines = split(fm.as_str(), '\n');
    let ghost ls = texts(lines@);
    let mut i: usize = 0;
    assert(ls.skip(0) =~= ls);
    while i < lines.len()
        invariant
            i <= lines.len(),
            ls == texts(lines@),
            want@ == key@ + ":"@,
            front_value(body@, key@) == value_in(ls.skip(i as int), key@),
        decreases lines.len() - i,
    {
        let line = trim(lines[i].as_str());
        assert(ls.skip(i as int)[0] == lines@[i as int]@);
        match strip_prefix(line.as_str(), want.as_str()) {
            Some(v) => {
                let t = trim(v.as_str());
                return Some(unquote(t.as_str()));
            },
            None => {},
        }
        assert(ls.skip(i as int).skip(1) =~= ls.skip(i + 1));
        i += 1;
    }
    None
}

// ---- the folders ---------------------------------------------------------------------------------

/// The folders that skills are looked for in, each with its scope. A later one shadows an
/// earlier one.
#[derive(Debug)]
pub struct SkillStore {
    pub dirs: Vec<(String, String)>,
}

/// The folders, given the two of the user and the one of the project.
pub open spec fn dirs_of(
    user: Option<(Seq<char>, Seq<char>)>,
    project: Option<Seq<char>>,
) -> Seq<(Seq<char>, Seq<char>)> {
    let first = match user {
        Some(u) => seq![("global"@, u.0), ("global"@, u.1)],
        None => Seq::empty(),
    };
    match project {
        Some(p) => first.push(("project"@, p)),
        None => first,
    }
}

/// Whether these may be the folders of skills: two in the home, where there is one, and behind
/// them the one of the project, where its path is absolute.
pub open spec fn may_be_skill_dirs(
    dirs: Seq<(Seq<char>, Seq<char>)>,
    workspace: Seq<char>,
    home: Option<Seq<char>>,
) -> bool {
    exists|user: Option<(Seq<char>, Seq<char>)>, project: Option<Seq<char>>| #[trigger]
        dirs_of(user, project) == dirs && (user is Some <==> home is Some) && (user matches Some(u)
            ==> may_join(home->Some_0, ".e/skills"@, u.0) && may_join(
            home->Some_0,
            ".agents/skills"@,
            u.1,
        )) && may_be_below(Some(workspace), ".e/skills"@, project)
}

impl SkillStore {
    /// The folders of the user only, where no project is in play.
    pub fn new(home: Option<&str>) -> (r: SkillStore)
        ensures
            may_be_skill_dirs(dirs_view(r.dirs@), Seq::empty(), opt_str(home)),
    {
        let none = "";
        proof {
            reveal_strlit("");
            assert(none@ =~= Seq::empty());
        }
        SkillStore::for_workspace(none, home)
    }

    /// The folders of the user and that of the project. A workspace that is empty or relative
    /// gives none: where it leads would depend on where the program was started.
    pub fn for_workspace(workspace: &str, home: Option<&str>) -> (r: SkillStore)
        ensures
            may_be_skill_dirs(dirs_view(r.dirs@), workspace@, opt_str(home)),
    {
        let project = below_workspace(Some(workspace), ".e/skills");
        let user: Option<(String, String)> = match home {
            Some(h) => Some((join_path(h, ".e/skills"), join_path(h, ".agents/skills"))),
            None => None,
        };
        let ghost a = user_dirs(user);
        let ghost b = opt_text(project);
        let r = SkillStore::with_dirs(user, project);
        assert(dirs_of(a, b) == dirs_view(r.dirs@));
        r
    }

    /// The store of the given folders.
    pub fn with_dirs(user: Option<(String, String)>, project: Option<String>) -> (r: SkillStore)
        ensures
            dirs_view(r.dirs@) == dirs_of(user_dirs(user), opt_text(project)),
    {
        let mut dirs: Vec<(String, String)> = Vec::new();
        let ghost a = user_dirs(user);
        let ghost b = opt_text(project);
        match user {
            Some((e, agents)) => {
                dirs.push(("global".to_string(), e));
                dirs.push(("global".to_string(), agents));
            },
            None => {},
        }
        match project {
            Some(p) => {
                dirs.push(("project".to_string(), p));
            },
            None => {},
        }
        assert(dirs_view(dirs@) =~= dirs_of(a, b));
        SkillStore { dirs }
    }
}

pub open spec fn user_dirs(user: Option<(String, String)>) -> Option<(Seq<char>, Seq<char>)> {
    match user {
        Some(u) => Some((u.0@, u.1@)),
        None => None,
    }
}

// ---- the catalogue --------------------------------------------------------------------------------

/// A `SKILL.md` that was found: the name of its folder, its path and scope, and its text where
/// it could be read.
#[derive(Debug)]
pub struct FoundSkill {
    pub name: String,
    pub path: String,
    pub scope: String,
    pub text: Option<String>,
}

pub struct FoundV {
    pub name: Seq<char>,
    pub path: Seq<char>,
    pub scope: Seq<char>,
    pub text: Option<Seq<char>>,
}

impl View for FoundSkill {
    type V = FoundV;

    open spec fn view(&self) -> FoundV {
        FoundV {
            name: self.name@,
            path: self.path@,
            scope: self.scope@,
            text: opt_text(self.text),
        }
    }
}

pub open spec fn founds(v: Seq<FoundSkill>) -> Seq<FoundV> {
    Seq::new(v.len(), |i: int| v[i]@)
}

/// What is known of a skill from its text.
pub open spec fn described(name: Seq<char>, path: Seq<char>, scope: Seq<char>, text: Seq<char>) -> SkillV {
    SkillV {
        name,
        display: match front_value(text, "name"@) {
            Some(d) => if d.len() > 0 {
                d
            } else {
                name
            },
            None => name,
        },
        description: match front_value(text, "description"@) {
            Some(d) => d,
            None => Seq::empty(),
        },
        path,
        scope,
    }
}

pub open spec fn seen(found: Seq<FoundV>, name: Seq<char>) -> bool {
    exists|i: int| 0 <= i < found.len() && (#[trigger] found[i]).name == name
}

/// The skills, in the order of their names. Of several with one name the first found counts,
/// even where it cannot be read.
pub open spec fn catalogue(found: Seq<FoundV>) -> Seq<SkillV>
    decreases found.len(),
{
    if found.len() == 0 {
        Seq::empty()
    } else {
        let p = catalogue(found.drop_last());
        let f = found.last();
        if seen(found.drop_last(), f.name) {
            p
        } else {
            match f.text {
                Some(t) => filed::<SkillMeta>(p, described(f.name, f.path, f.scope, t)),
                None => p,
            }
        }
    }
}

/// What is known of a skill from its text.
pub fn read_skill_meta(name: &str, path: &str, scope: &str, text: &str) -> (r: SkillMeta)
    ensures
        r@ == described(name@, path@, scope@, text@),
{
    let display: String = match frontmatter(text, "name") {
        Some(d) => if d.as_str().unicode_len() > 0 {
            d
        } else {
            name.to_string()
        },
        None => name.to_string(),
    };
    let description: String = match frontmatter(text, "description") {
        Some(d) => d,
        None => String::new(),
    };
    SkillMeta {
        name: name.to_string(),
        display,
        description,
        path: path.to_string(),
        scope: scope.to_string(),
    }
}

/// The skills that were found, in the order of their names. What is found first shadows what
/// has the same name: the project's folder is looked through before the user's.
pub fn list(found: &Vec<FoundSkill>) -> (r: Vec<SkillMeta>)
    ensures
        views(r@) == catalogue(founds(found@)),
{
    let ghost f = founds(found@);
    let mut out: Vec<SkillMeta> = Vec::new();
    let mut i: usize = 0;
    assert(views(out@) =~= catalogue(f.take(0)));
    while i < found.len()
        invariant
            i <= found.len(),
            f == founds(found@),
            views(out@) == catalogue(f.take(i as int)),
        decreases found.len() - i,
    {
        assert(f.take(i + 1).drop_last() =~= f.take(i as int));
        assert(f[i as int] == found@[i as int]@);
        let mut k: usize = 0;
        let mut known: bool = false;
        while k < i
            invariant
                k <= i < found.len(),
                f == founds(found@),
                known == (exists|q: int| 0 <= q < k && (#[trigger] f[q]).name == f[i as int].name),
            decreases i - k,
        {
            assert(f[k as int] == found@[k as int]@);
            if same(found[k].name.as_str(), found[i].name.as_str()) {
                known = true;
            }
            k += 1;
        }
        proof {
            let d = f.take(i as int);
            if known {
                let q = choose|q: int| 0 <= q < i && (#[trigger] f[q]).name == f[i as int].name;
                assert(d[q].name == f[i as int].name);
            }
            if seen(d, f[i as int].name) {
                let q = choose|q: int| 0 <= q < d.len() && (#[trigger] d[q]).name == f[i as int].name;
                assert(f[q].name == f[i as int].name);
            }
            assert(known == seen(d, f[i as int].name));
        }
        if !known {
            match &found[i].text {
                Some(t) => {
                    let meta = read_skill_meta(
                        found[i].name.as_str(),
                        found[i].path.as_str(),
                        found[i].scope.as_str(),
                        t.as_str(),
                    );
                    file(&mut out, meta);
                },
                None => {},
            }
        }
        i += 1;
    }
    assert(f.take(f.len() as int) =~= f);
    out
}

/// The path of the first skill that goes by a name for people to read.
pub open spec fn displayed(v: Seq<SkillV>, name: Seq<char>) -> Option<Seq<char>>
    decreases v.len(),
{
    if v.len() == 0 {
        None
    } else if v[0].display == name {
        Some(v[0].path)
    } else {
        displayed(v.skip(1), name)
    }
}

/// The path of the first skill that goes by a name for people to read: that name is what they
/// see, so it is accepted too.
pub fn find_displayed(skills: &Vec<SkillMeta>, name: &str) -> (r: Option<String>)
    ensures
        opt_text(r) == displayed(views(skills@), name@),
{
    let ghost v = views(skills@);
    let mut i: usize = 0;
    assert(v.skip(0) =~= v);
    while i < skills.len()
        invariant
            i <= skills.len(),
            v == views(skills@),
            displayed(v, name@) == displayed(v.skip(i as int), name@),
        decreases skills.len() - i,
    {
        assert(v.skip(i as int)[0] == skills@[i as int]@);
        if same(skills[i].display.as_str(), name) {
            return Some(skills[i].path.clone());
        }
        assert(v.skip(i as int).skip(1) =~= v.skip(i + 1));
        i += 1;
    }
    None
}

/// The skills stand in the order of their names, each name once.
pub proof fn catalogue_is_in_order(found: Seq<FoundV>)
    ensures
        by_name::<SkillMeta>(catalogue(found)),
    decreases found.len(),
{
    if found.len() > 0 {
        let p = catalogue(found.drop_last());
        let f = found.last();
        catalogue_is_in_order(found.drop_last());
        if let Some(t) = f.text {
            filing_keeps_order::<SkillMeta>(p, described(f.name, f.path, f.scope, t));
        }
    }
}

/// What is found first shadows what is found later under the same name.
pub proof fn earlier_skills_shadow_later_ones(found: Seq<FoundV>, more: FoundV)
    requires
        seen(found, more.name),
    ensures
        catalogue(found.push(more)) == catalogue(found),
{
    assert(found.push(more).drop_last() =~= found);
}

// ---- what a front matter says ------------------------------------------------------------------------

/// A front matter is what stands between the three hyphens that open a text and the first line that
/// begins with three more; what is behind that does not count.
pub proof fn a_front_matter_is_found(fm: Seq<char>, rest: Seq<char>)
    requires
        !within("\n---"@, (fm + "\n---"@).drop_last()),
    ensures
        front("---"@ + fm + "\n---"@ + rest) == Some(fm),
{
    let body = "---"@ + fm + "\n---"@ + rest;
    let close = "\n---"@;
    let b = fm + close + rest;
    reveal_strlit("---");
    reveal_strlit("\n---");
    assert(close.len() == 4);
    assert(body.take(3) =~= "---"@);
    assert(body.skip(3) =~= b);
    a_search_finds_what_is_there(b, close);
    between(fm, close, rest, b);
    let i = find_of(b, close)->Some_0;
    let n = fm.len() as int;
    assert(b.subrange(n, n + close.len()) =~= close);
    if i > n {
        assert(b.subrange(n, n + close.len()) != close);
    }
    if i < n {
        let short = (fm + close).drop_last();
        assert(short =~= b.take(n + 3));
        assert(short.subrange(i, i + close.len()) =~= b.subrange(i, i + close.len()));
        between(short.take(i), close, short.skip(i + close.len()), short);
    }
    assert(b.take(n) =~= fm);
}

/// A text that does not open with three hyphens has no front matter, nor has one that never closes
/// it; and then nothing is said.
pub proof fn without_a_front_matter_nothing_is_said(body: Seq<char>, key: Seq<char>)
    ensures
        body.len() < 3 || body.take(3) != "---"@ ==> front_value(body, key) is None,
        body.len() >= 3 && !within("\n---"@, body.skip(3)) ==> front_value(body, key) is None,
{
    reveal_strlit("---");
    assert("---"@.len() == 3);
    if body.len() >= 3 {
        a_search_finds_what_is_there(body.skip(3), "\n---"@);
    }
}

/// The first line that gives a key a value counts: the value is what stands behind the colon,
/// without space and quotes around it.
pub proof fn the_first_line_for_a_key_counts(
    body: Seq<char>,
    fm: Seq<char>,
    key: Seq<char>,
    i: int,
    v: Seq<char>,
)
    requires
        front(body) == Some(fm),
        0 <= i < split_of(fm, '\n').len(),
        trim_of(split_of(fm, '\n')[i]) == key + ":"@ + v,
        forall|j: int|
            0 <= j < i ==> !starts(trim_of(#[trigger] split_of(fm, '\n')[j]), key + ":"@),
    ensures
        front_value(body, key) == Some(unquoted_end(unquoted_start(trim_of(v)))),
{
    value_of_the_first(split_of(fm, '\n'), key, i, v);
}

proof fn value_of_the_first(lines: Seq<Seq<char>>, key: Seq<char>, i: int, v: Seq<char>)
    requires
        0 <= i < lines.len(),
        trim_of(lines[i]) == key + ":"@ + v,
        forall|j: int| 0 <= j < i ==> !starts(trim_of(#[trigger] lines[j]), key + ":"@),
    ensures
        value_in(lines, key) == Some(unquoted_end(unquoted_start(trim_of(v)))),
    decreases lines.len(),
{
    let k = key + ":"@;
    if i == 0 {
        let t = trim_of(lines[0]);
        assert(t.take(k.len() as int) =~= k);
        assert(t.skip(k.len() as int) =~= v);
    } else {
        let rest = lines.skip(1);
        assert(rest[i - 1] == lines[i]);
        assert forall|j: int| 0 <= j < i - 1 implies !starts(trim_of(#[trigger] rest[j]), k) by {
            assert(rest[j] == lines[j + 1]);
        }
        assert(!starts(trim_of(lines[0]), k));
        value_of_the_first(rest, key, i - 1, v);
    }
}

/// A value without quotes at its ends stays as it is, and one in quotes loses them and nothing else.
pub proof fn only_quotes_are_taken(v: Seq<char>)
    requires
        v.len() > 0 ==> v[0] != '"' && v[0] != '\'' && v.last() != '"' && v.last() != '\'',
    ensures
        unquoted_end(unquoted_start(v)) == v,
        unquoted_end(unquoted_start(seq!['"'] + v + seq!['"'])) == v,
        unquoted_end(unquoted_start(seq!['\''] + v + seq!['\''])) == v,
{
    quotes_around(v, '"');
    quotes_around(v, '\'');
}

proof fn quotes_around(v: Seq<char>, q: char)
    requires
        is_quote(q),
        v.len() > 0 ==> !is_quote(v[0]) && !is_quote(v.last()),
    ensures
        unquoted_end(unquoted_start(seq![q] + v + seq![q])) == v,
{
    let s = seq![q] + v + seq![q];
    let t = v + seq![q];
    assert(s.skip(1) =~= t);
    assert(unquoted_start(s) == unquoted_start(t));
    if v.len() > 0 {
        assert(t[0] == v[0]);
        assert(unquoted_start(t) == t);
        assert(t.drop_last() =~= v);
        assert(unquoted_end(t) == unquoted_end(v));
    } else {
        assert(t.skip(1) =~= v);
        assert(unquoted_start(t) == unquoted_start(v));
    }
}

/// Every skill that was found and could be read is in the catalogue, unless an earlier one has its
/// name: with the name of its folder, its path and its scope, and with the name and the description
/// that its front matter gives.
pub proof fn every_readable_skill_is_listed(found: Seq<FoundV>, i: int)
    requires
        0 <= i < found.len(),
        found[i].text is Some,
        forall|j: int| 0 <= j < i ==> (#[trigger] found[j]).name != found[i].name,
    ensures
        exists|k: int|
            0 <= k < catalogue(found).len() && {
                let s = #[trigger] catalogue(found)[k];
                let t = found[i].text->Some_0;
                &&& s.name == found[i].name
                &&& s.path == found[i].path
                &&& s.scope == found[i].scope
                &&& front_value(t, "description"@) matches Some(d) ==> s.description == d
                &&& front_value(t, "description"@) is None ==> s.description.len() == 0
                &&& front_value(t, "name"@) matches Some(d) ==> d.len() > 0 ==> s.display == d
                &&& front_value(t, "name"@) is None ==> s.display == found[i].name
            },
{
    let f = found[i];
    let x = described(f.name, f.path, f.scope, f.text->Some_0);
    listed_once_found(found, i);
    let k = choose|k: int| 0 <= k < catalogue(found).len() && catalogue(found)[k] == x;
    assert(catalogue(found)[k].name == f.name);
}

proof fn listed_once_found(found: Seq<FoundV>, i: int)
    requires
        0 <= i < found.len(),
        found[i].text is Some,
        forall|j: int| 0 <= j < i ==> (#[trigger] found[j]).name != found[i].name,
    ensures
        catalogue(found).contains(
            described(found[i].name, found[i].path, found[i].scope, found[i].text->Some_0),
        ),
    decreases found.len(),
{
    let d = found.drop_last();
    let f = found.last();
    let y = described(found[i].name, found[i].path, found[i].scope, found[i].text->Some_0);
    catalogue_is_in_order(d);
    if i < d.len() {
        assert(d[i] == found[i]);
        assert forall|j: int| 0 <= j < i implies (#[trigger] d[j]).name != d[i].name by {
            assert(d[j] == found[j]);
        }
        listed_once_found(d, i);
        if !seen(d, f.name) && f.text is Some {
            let x = described(f.name, f.path, f.scope, f.text->Some_0);
            assert(f.name != d[i].name);
            assert(SkillMeta::name_in(x) == f.name);
            assert(SkillMeta::name_in(y) == found[i].name);
            filing_keeps_order::<SkillMeta>(catalogue(d), x);
        }
    } else {
        if seen(d, f.name) {
            let j = choose|j: int| 0 <= j < d.len() && (#[trigger] d[j]).name == f.name;
            assert(d[j] == found[j]);
        }
        filing_keeps_order::<SkillMeta>(catalogue(d), y);
    }
}

/// A skill is found by the name that people see, the first that has it.
pub proof fn a_skill_is_found_by_what_people_see(v: Seq<SkillV>, name: Seq<char>, i: int)
    requires
        0 <= i < v.len(),
        v[i].display == name,
        forall|j: int| 0 <= j < i ==> (#[trigger] v[j]).display != name,
    ensures
        displayed(v, name) == Some(v[i].path),
    decreases v.len(),
{
    if i > 0 {
        let t = v.skip(1);
        assert(v[0].display != name);
        assert(t[i - 1] == v[i]);
        assert forall|j: int| 0 <= j < i - 1 implies (#[trigger] t[j]).display != name by {
            assert(t[j] == v[j + 1]);
        }
        a_skill_is_found_by_what_people_see(t, name, i - 1);
    }
}

/// The two folders of the user come first, and that of the project behind them.
pub proof fn the_users_folders_come_first(user: (Seq<char>, Seq<char>), project: Seq<char>)
    ensures
        dirs_of(Some(user), Some(project)) == seq![
            ("global"@, user.0),
            ("global"@, user.1),
            ("project"@, project),
        ],
        dirs_of(Some(user), None) == seq![("global"@, user.0), ("global"@, user.1)],
        dirs_of(None, Some(project)) == seq![("project"@, project)],
        dirs_of(None, None) == Seq::<(Seq<char>, Seq<char>)>::empty(),
{
    assert(dirs_of(Some(user), Some(project)) =~= seq![
        ("global"@, user.0),
        ("global"@, user.1),
        ("project"@, project),
    ]);
    assert(dirs_of(None, Some(project)) =~= seq![("project"@, project)]);
}

/// A key that no line gives a value has none.
pub proof fn a_key_without_a_line_has_no_value(body: Seq<char>, fm: Seq<char>, key: Seq<char>)
    requires
        front(body) == Some(fm),
        forall|j: int|
            0 <= j < split_of(fm, '\n').len() ==> !starts(
                trim_of(#[trigger] split_of(fm, '\n')[j]),
                key + ":"@,
            ),
    ensures
        front_value(body, key) is None,
{
    no_line_no_value(split_of(fm, '\n'), key);
}

proof fn no_line_no_value(lines: Seq<Seq<char>>, key: Seq<char>)
    requires
        forall|j: int| 0 <= j < lines.len() ==> !starts(trim_of(#[trigger] lines[j]), key + ":"@),
    ensures
        value_in(lines, key) is None,
    decreases lines.len(),
{
    if lines.len() > 0 {
        let rest = lines.skip(1);
        assert(!starts(trim_of(lines[0]), key + ":"@));
        assert forall|j: int| 0 <= j < rest.len() implies !starts(
            trim_of(#[trigger] rest[j]),
            key + ":"@,
        ) by {
            assert(rest[j] == lines[j + 1]);
        }
        no_line_no_value(rest, key);
    }
}

} // verus!
