//! Paths, as the machine reads them.
//!
//! Which texts are absolute, and which name the same folder, differs between machines. What the
//! functions that ask `std::path` say holds on all of them: of a path that is relative by any
//! reading, of a name that is a name by any reading, and of the letters that no reading changes.
//! Beside each stands one that takes the answer as an argument and says exactly what follows
//! from it.

use vstd::prelude::*;

use crate::text::{
    blank, ends, lower_char, opt_text, starts, trim, trim_is_empty_iff_blank, trim_of,
};

verus! {

// ---- what holds on every machine ------------------------------------------------------------------

pub open spec fn is_separator(c: char) -> bool {
    c == '/' || c == '\\'
}

/// Whether a path is relative on every machine: it begins with no separator, and no drive or other
/// prefix is named in it.
pub open spec fn plainly_relative(p: Seq<char>) -> bool {
    p.len() == 0 || (!is_separator(p[0]) && !p.contains(':'))
}

/// Whether a path has a prefix that has some machines rewrite what is joined to it.
pub open spec fn verbatim(p: Seq<char>) -> bool {
    starts(p, "\\\\?\\"@)
}

/// Whether a text is the name of one file or folder on every machine.
pub open spec fn plain_name(n: Seq<char>) -> bool {
    &&& n.len() > 0
    &&& n != "."@
    &&& n != ".."@
    &&& !n.contains('/')
    &&& !n.contains('\\')
    &&& !n.contains(':')
}

/// What stands behind the last slash.
pub open spec fn last_part(p: Seq<char>) -> Seq<char>
    decreases p.len(),
{
    if p.len() == 0 || p.last() == '/' {
        Seq::empty()
    } else {
        last_part(p.drop_last()).push(p.last())
    }
}

/// Whether a path begins with two separators, behind which some machines read the names of a
/// server and a share.
pub open spec fn doubly_rooted(p: Seq<char>) -> bool {
    p.len() >= 2 && is_separator(p[0]) && is_separator(p[1])
}

/// The characters of a path that count on every machine: no separators, no dots, and no capitals.
pub open spec fn letters(p: Seq<char>) -> Seq<char>
    decreases p.len(),
{
    if p.len() == 0 {
        Seq::empty()
    } else {
        let c = p.last();
        if is_separator(c) || c == '.' {
            letters(p.drop_last())
        } else {
            letters(p.drop_last()).push(lower_char(c))
        }
    }
}

/// Whether a machine may say of a path that it is absolute, or that it is not.
pub open spec fn may_be_absolute(p: Seq<char>, absolute: bool) -> bool {
    plainly_relative(p) ==> !absolute
}

/// Whether `joined` is `p` behind `base`, with at most one separator between them.
pub open spec fn behind(base: Seq<char>, p: Seq<char>, joined: Seq<char>) -> bool {
    joined == base + p || joined == base + "/"@ + p || joined == base + "\\"@ + p
}

/// Whether a machine may make `joined` of joining `p` to `base`.
pub open spec fn may_join(base: Seq<char>, p: Seq<char>, joined: Seq<char>) -> bool {
    !verbatim(base) ==> {
        &&& ends(joined, p)
        &&& plainly_relative(p) ==> behind(base, p, joined)
    }
}

/// Whether `r` may be where `p` leads from `base`: `p` itself where it is absolute, and otherwise
/// what joining the two gives.
pub open spec fn may_lead_to(base: Seq<char>, p: Seq<char>, r: Seq<char>) -> bool {
    (!plainly_relative(p) && r == p) || may_join(base, p, r)
}

/// Whether a machine may say that `last` is the last part of a path.
pub open spec fn may_end_in(p: Seq<char>, last: Option<Seq<char>>) -> bool {
    plain_name(last_part(p)) && !doubly_rooted(p) ==> last == Some(last_part(p))
}

/// Whether a machine may say that two texts name one path, or that they do not.
pub open spec fn may_be_same(a: Seq<char>, b: Seq<char>, same: bool) -> bool {
    &&& a == b ==> same
    &&& same ==> letters(a) == letters(b)
}

/// The letters of two texts, one behind the other.
pub proof fn letters_of_both(a: Seq<char>, b: Seq<char>)
    ensures
        letters(a + b) == letters(a) + letters(b),
    decreases b.len(),
{
    if b.len() == 0 {
        assert(a + b =~= a);
        assert(letters(a) + letters(b) =~= letters(a));
    } else {
        letters_of_both(a, b.drop_last());
        assert((a + b).drop_last() =~= a + b.drop_last());
        assert(letters(a + b) =~= letters(a) + letters(b));
    }
}

/// The letters of a path are those of what it was joined from, whatever separates them.
pub proof fn letters_of_joined(base: Seq<char>, p: Seq<char>, joined: Seq<char>)
    requires
        behind(base, p, joined),
    ensures
        letters(joined) == letters(base) + letters(p),
{
    reveal_strlit("/");
    reveal_strlit("\\");
    letters_of_both(base, p);
    letters_of_both(base + "/"@, p);
    letters_of_both(base, "/"@);
    letters_of_both(base + "\\"@, p);
    letters_of_both(base, "\\"@);
    assert("/"@.drop_last() =~= Seq::empty());
    assert("\\"@.drop_last() =~= Seq::empty());
    assert(letters("/"@).len() == 0 && letters("\\"@).len() == 0) by {
        reveal_with_fuel(letters, 2);
    }
    assert(letters("/"@) =~= Seq::empty());
    assert(letters("\\"@) =~= Seq::empty());
    assert(letters(base) + Seq::<char>::empty() =~= letters(base));
}

/// Wherever a path leads, it ends in what was asked for; and where that is plainly relative, it
/// begins with the folder that it leads from.
pub proof fn a_path_keeps_its_ends(base: Seq<char>, p: Seq<char>, r: Seq<char>)
    requires
        may_lead_to(base, p, r),
        !verbatim(base),
    ensures
        ends(r, p),
        plainly_relative(p) ==> starts(r, base),
{
    if r == p {
        assert(r.skip(0) =~= p);
        assert(ends(r, p));
    }
    if plainly_relative(p) {
        assert(r.take(base.len() as int) =~= base);
    }
}

/// A plain name is relative, and is its own last part.
pub proof fn plain_names_stand_alone(n: Seq<char>)
    requires
        plain_name(n),
    ensures
        plainly_relative(n),
        !doubly_rooted(n),
        last_part(n) == n,
{
    assert(n.contains(n[0]));
    last_part_without_slash(n);
}

proof fn last_part_without_slash(n: Seq<char>)
    requires
        !n.contains('/'),
    ensures
        last_part(n) == n,
    decreases n.len(),
{
    if n.len() > 0 {
        assert(n.contains(n.last()));
        assert forall|c: char| n.drop_last().contains(c) implies n.contains(c) by {
            let i = choose|i: int| 0 <= i < n.drop_last().len() && n.drop_last()[i] == c;
            assert(n[i] == c);
        }
        last_part_without_slash(n.drop_last());
    }
    assert(last_part(n) =~= n);
}

// ---- what is asked of the machine -----------------------------------------------------------------

/// `std::path::Path`'s equality, which compares the parts of two paths. The same text names the
/// same path. Two texts that name one path differ only in what parts a path: in separators, in
/// dots that stand for a folder itself, and in the case of a drive. Which of those differences
/// matter is up to the machine.
#[verifier::external_body]
pub(crate) fn same_path(a: &str, b: &str) -> (r: bool)
    ensures
        may_be_same(a@, b@, r),
{
    std::path::Path::new(a) == std::path::Path::new(b)
}

/// `Path::is_absolute`. A path without a root at its beginning and without a prefix is relative
/// everywhere; which of the others are absolute is up to the machine.
#[verifier::external_body]
pub(crate) fn is_absolute(p: &str) -> (r: bool)
    ensures
        may_be_absolute(p@, r),
{
    std::path::Path::new(p).is_absolute()
}

/// `Path::join`, which puts `p` behind `base`, or in place of it or of a part of it where `p` has
/// a root or a prefix. Nothing is claimed of a base with a verbatim prefix, to which some machines
/// join a path without the dots in it. Which separator is used, and whether one is needed, is up
/// to the machine.
#[verifier::external_body]
pub(crate) fn join_path(base: &str, p: &str) -> (r: String)
    ensures
        may_join(base@, p@, r@),
{
    std::path::Path::new(base).join(p).to_string_lossy().to_string()
}

/// `Path::file_name`, the last part of a path. A name that is one everywhere, alone or behind a
/// slash, is that part. What else separates the parts of a path is up to the machine.
#[verifier::external_body]
fn file_name(p: &str) -> (r: Option<String>)
    ensures
        may_end_in(p@, opt_text(r)),
{
    std::path::Path::new(p).file_name().map(|n| n.to_string_lossy().to_string())
}

// ---- workspaces ---------------------------------------------------------------------------------------

/// Where the program runs.
#[derive(Debug)]
pub struct Place {
    /// The folder for one-off work: it exists, and is no codebase.
    pub scratch: String,
    /// The current directory.
    pub cwd: String,
}

/// A workspace made absolute: the current directory where none is named, the text itself where
/// it is absolute, and otherwise `joined`, which is that text behind the current directory.
pub open spec fn absolute_of(
    ws: Seq<char>,
    cwd: Seq<char>,
    absolute: bool,
    joined: Seq<char>,
) -> Seq<char> {
    if blank(ws) {
        cwd
    } else if absolute {
        trim_of(ws)
    } else {
        joined
    }
}

/// A workspace made absolute, once it is known whether it is and what joining it gives.
pub fn absolute_with(ws: &str, cwd: &str, absolute: bool, joined: &str) -> (r: String)
    ensures
        r@ == absolute_of(ws@, cwd@, absolute, joined@),
{
    let t = trim(ws);
    proof {
        trim_is_empty_iff_blank(ws@);
    }
    if t.as_str().unicode_len() == 0 {
        cwd.to_string()
    } else if absolute {
        t
    } else {
        joined.to_string()
    }
}

/// A workspace made absolute. A relative one would mean another folder each time the program
/// is started from elsewhere.
pub fn absolute_workspace(ws: &str, cwd: &str) -> (r: String)
    ensures
        blank(ws@) ==> r@ == cwd@,
        !blank(ws@) ==> may_lead_to(cwd@, trim_of(ws@), r@),
        !blank(ws@) && !verbatim(cwd@) ==> ends(r@, trim_of(ws@)),
        !blank(ws@) && !verbatim(cwd@) && plainly_relative(trim_of(ws@)) ==> starts(r@, cwd@),
{
    let t = trim(ws);
    let absolute: bool = is_absolute(t.as_str());
    let joined = join_path(cwd, t.as_str());
    let r = absolute_with(ws, cwd, absolute, joined.as_str());
    proof {
        if !blank(ws@) && !verbatim(cwd@) {
            a_path_keeps_its_ends(cwd@, t@, r@);
        }
    }
    r
}

/// Whether a folder is the one for one-off work.
pub fn is_scratch(ws: &str, place: &Place) -> (r: bool)
    ensures
        blank(ws@) ==> !r,
        !blank(ws@) ==> may_be_same(trim_of(ws@), place.scratch@, r),
{
    let t = trim(ws);
    proof {
        trim_is_empty_iff_blank(ws@);
    }
    t.as_str().unicode_len() > 0 && same_path(t.as_str(), place.scratch.as_str())
}

/// The name of a project after the last part of its path, or a plain one.
pub open spec fn basename(last: Option<Seq<char>>) -> Seq<char> {
    match last {
        Some(n) => if blank(n) {
            "Project"@
        } else {
            trim_of(n)
        },
        None => "Project"@,
    }
}

/// The name of a project after the last part of its path, or a plain one.
pub fn basename_with(last: Option<String>) -> (r: String)
    ensures
        r@ == basename(opt_text(last)),
{
    match last {
        Some(n) => {
            let t = trim(n.as_str());
            proof {
                trim_is_empty_iff_blank(n@);
            }
            if t.as_str().unicode_len() == 0 {
                "Project".to_string()
            } else {
                t
            }
        },
        None => "Project".to_string(),
    }
}

/// The name of a project after the last part of its path.
pub fn basename_of(path: &str) -> (r: String)
    ensures
        exists|last: Option<Seq<char>>| #[trigger]
            may_end_in(path@, last) && r@ == basename(last),
        plain_name(last_part(path@)) && !doubly_rooted(path@) ==> r@ == basename(
            Some(last_part(path@)),
        ),
        plain_name(path@) ==> r@ == basename(Some(path@)),
{
    proof {
        if plain_name(path@) {
            plain_names_stand_alone(path@);
        }
    }
    let last = file_name(path);
    let ghost l = opt_text(last);
    let r = basename_with(last);
    assert(may_end_in(path@, l) && r@ == basename(l));
    r
}

/// A project in a folder with a plain name goes by that name, wherever the folder is.
pub proof fn a_project_is_named_after_its_folder(
    path: Seq<char>,
    name: Seq<char>,
    last: Option<Seq<char>>,
)
    requires
        plain_name(name),
        !blank(name),
        path == name || (ends(path, "/"@ + name) && !doubly_rooted(path)),
        may_end_in(path, last),
    ensures
        basename(last) == trim_of(name),
{
    reveal_strlit("/");
    plain_names_stand_alone(name);
    if path != name {
        let n = path.len() - name.len();
        assert(path.skip(n) =~= name) by {
            assert forall|i: int| 0 <= i < name.len() implies path[n + i] == name[i] by {
                assert(("/"@ + name)[i + 1] == name[i]);
                assert(path.skip(n - 1)[i + 1] == path[n + i]);
            }
        }
        assert(path[n - 1] == '/') by {
            assert(("/"@ + name)[0] == '/');
        }
        last_part_behind(path, n);
    }
}

proof fn last_part_behind(p: Seq<char>, n: int)
    requires
        0 < n <= p.len(),
        p[n - 1] == '/',
        !p.skip(n).contains('/'),
    ensures
        last_part(p) == p.skip(n),
    decreases p.len(),
{
    if p.len() == n {
        assert(p.skip(n) =~= Seq::empty());
    } else {
        let d = p.drop_last();
        assert(p.skip(n).contains(p.skip(n)[p.len() - n - 1]));
        assert(p.last() != '/');
        assert forall|c: char| d.skip(n).contains(c) implies p.skip(n).contains(c) by {
            let i = choose|i: int| 0 <= i < d.skip(n).len() && d.skip(n)[i] == c;
            assert(p.skip(n)[i] == c);
        }
        last_part_behind(d, n);
        assert(last_part(p) =~= p.skip(n));
    }
}

/// A folder, as the machine sees it.
#[derive(Debug)]
pub struct Folder {
    pub path: String,
    /// Whether it is the folder for one-off work.
    pub scratch: bool,
    /// The name that a project there goes by.
    pub name: String,
}

/// The folder that a workspace names, and the one for one-off work where it names none: the
/// current directory is no project either.
pub fn folder_at(ws: &str, place: &Place) -> (r: Folder)
    ensures
        blank(ws@) ==> r.path@ == place.scratch@,
        !blank(ws@) ==> may_lead_to(place.cwd@, trim_of(ws@), r.path@),
        !blank(ws@) && !verbatim(place.cwd@) ==> ends(r.path@, trim_of(ws@)),
        blank(r.path@) ==> !r.scratch,
        !blank(r.path@) ==> may_be_same(trim_of(r.path@), place.scratch@, r.scratch),
        exists|last: Option<Seq<char>>| #[trigger]
            may_end_in(r.path@, last) && r.name@ == basename(last),
{
    let t = trim(ws);
    proof {
        trim_is_empty_iff_blank(ws@);
    }
    let path: String = if t.as_str().unicode_len() == 0 {
        place.scratch.clone()
    } else {
        absolute_workspace(ws, place.cwd.as_str())
    };
    let scratch: bool = is_scratch(path.as_str(), place);
    let name = basename_of(path.as_str());
    let ghost p = path@;
    assert(exists|last: Option<Seq<char>>| #[trigger] may_end_in(p, last) && name@ == basename(last));
    let r = Folder { path, scratch, name };
    assert(r.path@ == p);
    r
}

/// A workspace is made absolute without becoming another: an absolute one stays, a relative one is
/// taken from the current directory, and where none is named it is that directory.
pub proof fn a_workspace_stays_what_it_is(ws: Seq<char>, cwd: Seq<char>, joined: Seq<char>)
    ensures
        blank(ws) ==> absolute_of(ws, cwd, true, joined) == cwd && absolute_of(ws, cwd, false, joined)
            == cwd,
        !blank(ws) ==> absolute_of(ws, cwd, true, joined) == trim_of(ws) && absolute_of(
            ws,
            cwd,
            false,
            joined,
        ) == joined,
{
}

/// A project is called after its folder, without the space around that, and only where the folder
/// has no name by a plain one.
pub proof fn a_folder_gives_its_name(last: Seq<char>)
    ensures
        !blank(last) ==> basename(Some(last)) == trim_of(last),
        blank(last) ==> basename(Some(last)) == "Project"@,
        basename(None) == "Project"@,
{
}

} // verus!
