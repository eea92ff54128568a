//! Looking at a project's files: the listing of one folder, and the beginning of a file, never
//! outside the project.

use vstd::prelude::*;

use crate::bytes::{lossy, lossy_of};
use crate::order::{ranked, sort, Ranked};
use crate::paths::{is_absolute, plainly_relative};
use crate::text::{
    at_most, before, chars_of, lowercase, lowercase_of, one_of, opt_text, order_is_total,
    order_is_transitive, precedes, replace_char, replaced, same, split, split_of, string_of, trim,
    trim_of,
};

verus! {

/// The most entries of a folder that are listed.
pub const MAX_ENTRIES: usize = 5_000;

/// How much of a file is read.
pub const MAX_PREVIEW: usize = 524_288;

/// How far into a file a zero byte is looked for, which no text holds.
pub const SNIFF: usize = 8_000;

#[derive(Debug)]
pub struct Entry {
    pub name: String,
    /// The path below the root, with `/` between its parts.
    pub path: String,
    pub dir: bool,
    pub size: u64,
    /// Unix seconds, or 0 where the system does not say.
    pub modified: u64,
    pub symlink: bool,
}

#[derive(Debug)]
pub struct Listing {
    pub path: String,
    pub entries: Vec<Entry>,
    /// The folder has more entries than are listed.
    pub truncated: bool,
}

#[derive(Debug)]
pub struct FileText {
    pub path: String,
    pub text: String,
    pub size: u64,
    /// The file is longer than the text.
    pub truncated: bool,
    /// The file is no text.
    pub binary: bool,
}

// ---- paths ---------------------------------------------------------------------------------------

/// `s` without the slashes that it begins with.
pub open spec fn unslashed_start(s: Seq<char>) -> Seq<char>
    decreases s.len(),
{
    if s.len() > 0 && s[0] == '/' {
        unslashed_start(s.skip(1))
    } else {
        s
    }
}

/// `s` without the slashes that it ends with.
pub open spec fn unslashed_end(s: Seq<char>) -> Seq<char>
    decreases s.len(),
{
    if s.len() > 0 && s.last() == '/' {
        unslashed_end(s.drop_last())
    } else {
        s
    }
}

/// A path as it was meant: with `/` between its parts, and none around it.
pub open spec fn normal(rel: Seq<char>) -> Seq<char> {
    unslashed_end(unslashed_start(replaced(trim_of(rel), '\\', '/')))
}

/// Whether a path leads out of the folder that it starts in, as far as its text says.
pub open spec fn climbs(p: Seq<char>) -> bool {
    split_of(p, '/').contains(".."@)
}

fn normalise(rel: &str) -> (r: String)
    ensures
        r@ == normal(rel@),
{
    let t = trim(rel);
    let s = replace_char(t.as_str(), '\\', '/');
    let v = chars_of(s.as_str());
    let mut a: usize = 0;
    assert(s@.skip(0) =~= s@);
    while a < v.len() && v[a] == '/'
        invariant
            a <= v.len(),
            v@ == s@,
            unslashed_start(s@) == unslashed_start(s@.skip(a as int)),
        decreases v.len() - a,
    {
        assert(s@.skip(a as int).skip(1) =~= s@.skip(a + 1));
        a += 1;
    }
    let ghost u = s@.skip(a as int);
    assert(unslashed_start(s@) == u);
    let mut b: usize = v.len();
    assert(u.take(u.len() as int) =~= u);
    while b > a && v[b - 1] == '/'
        invariant
            a <= b <= v.len(),
            v@ == s@,
            u == s@.skip(a as int),
            unslashed_end(u) == unslashed_end(u.take(b - a)),
        decreases b,
    {
        assert(u.take(b - a).drop_last() =~= u.take(b - a - 1));
        b -= 1;
    }
    assert(v@.subrange(a as int, b as int) =~= u.take(b - a));
    string_of(&v, a, b)
}

/// Whether `r` is where a path below a root leads: the root itself, or a path to join to it; or
/// an error where it leads out.
pub open spec fn resolving(
    r: Result<Option<String>, String>,
    root: Seq<char>,
    rel: Seq<char>,
    absolute: bool,
) -> bool {
    let p = normal(rel);
    if root.len() == 0 {
        r matches Err(e) && e@
            == "this chat has no project folder. Pick one for its project (sidebar → ✎)."@
    } else if p.len() == 0 || p == "."@ {
        r matches Ok(o) && o is None
    } else if absolute || climbs(p) {
        r matches Err(e) && e@ == "'"@ + p + "' is outside the project folder"@
    } else {
        r matches Ok(o) && opt_text(o) == Some(p)
    }
}

/// Where a path below a root leads, once it is known whether it is absolute.
pub fn resolve_with(root: &str, rel: &str, absolute: bool) -> (r: Result<Option<String>, String>)
    ensures
        resolving(r, root@, rel@, absolute),
{
    if root.unicode_len() == 0 {
        return Err(
            "this chat has no project folder. Pick one for its project (sidebar → ✎).".to_string(),
        );
    }
    let p = normalise(rel);
    if p.as_str().unicode_len() == 0 || same(p.as_str(), ".") {
        return Ok(None);
    }
    let parts = split(p.as_str(), '/');
    if absolute || one_of("..", &parts) {
        let mut s = "'".to_string();
        s.append(p.as_str());
        s.append("' is outside the project folder");
        return Err(s);
    }
    Ok(Some(p))
}

/// Where a path below a root leads. What comes back has still to be followed through links, and
/// is then checked by [`contained`].
pub fn resolve(root: &str, rel: &str) -> (r: Result<Option<String>, String>)
    ensures
        exists|absolute: bool| #[trigger] resolving(r, root@, rel@, absolute),
        plainly_relative(normal(rel@)) ==> resolving(r, root@, rel@, false),
        climbs(normal(rel@)) ==> r is Err,
{
    let p = normalise(rel);
    let absolute: bool = is_absolute(p.as_str());
    let r = resolve_with(root, rel, absolute);
    assert(resolving(r, root@, rel@, absolute));
    proof {
        if normal(rel@).len() == 0 {
            assert(normal(rel@) =~= Seq::empty());
            assert(split_of(normal(rel@), '/') =~= seq![Seq::<char>::empty()]);
            reveal_strlit("..");
        }
        if normal(rel@) == "."@ {
            reveal_strlit(".");
            reveal_strlit("..");
            let p = normal(rel@);
            assert(p.drop_last() =~= Seq::empty());
            assert(split_of(p.drop_last(), '/') =~= seq![Seq::<char>::empty()]);
            assert(split_of(p, '/').len() == 1);
            assert(split_of(p, '/')[0].len() == 1);
        }
    }
    r
}

/// Whether a path that was followed through its links is still below the root. A link out of the
/// project must not open the rest of the disk.
pub fn contained(rel: &str, inside: bool) -> (r: Result<(), String>)
    ensures
        match r {
            Ok(_) => inside,
            Err(e) => !inside && e@ == "'"@ + normal(rel@) + "' resolves outside the project folder"@,
        },
{
    if inside {
        Ok(())
    } else {
        let mut s = "'".to_string();
        s.append(normalise(rel).as_str());
        s.append("' resolves outside the project folder");
        Err(s)
    }
}

/// A path below the root, with `/` between its parts.
pub fn rel_of(below: &str) -> (r: String)
    ensures
        r@ == replaced(below@, '\\', '/'),
{
    replace_char(below, '\\', '/')
}

// ---- listing -------------------------------------------------------------------------------------

/// Whether `a` may stand before `b`: folders first, then by name without regard to case.
pub open spec fn may_stand_before(a: Entry, b: Entry) -> bool {
    if a.dir != b.dir {
        a.dir
    } else if lowercase_of(a.name@) != lowercase_of(b.name@) {
        precedes(lowercase_of(a.name@), lowercase_of(b.name@))
    } else {
        at_most(a.name@, b.name@)
    }
}

impl Ranked for Entry {
    open spec fn ranks(a: Entry, b: Entry) -> bool {
        may_stand_before(a, b)
    }

    proof fn ranks_transitively(a: Entry, b: Entry, c: Entry) {
        let x = lowercase_of(a.name@);
        let y = lowercase_of(b.name@);
        let z = lowercase_of(c.name@);
        order_is_total(x, y);
        order_is_total(y, z);
        order_is_total(x, z);
        if a.dir == b.dir && b.dir == c.dir {
            if x == y && y == z {
                order_is_transitive(a.name@, b.name@, c.name@);
            } else {
                order_is_transitive(x, y, z);
                if x == z {
                    assert(at_most(x, y));
                    assert(at_most(y, x));
                }
            }
        }
    }

    proof fn ranks_totally(a: Entry, b: Entry) {
        order_is_total(lowercase_of(a.name@), lowercase_of(b.name@));
        order_is_total(a.name@, b.name@);
    }

    fn may_precede(&self, other: &Entry) -> (r: bool) {
        if self.dir != other.dir {
            return self.dir;
        }
        let x = lowercase(self.name.as_str());
        let y = lowercase(other.name.as_str());
        if !same(x.as_str(), y.as_str()) {
            before(x.as_str(), y.as_str())
        } else {
            !before(other.name.as_str(), self.name.as_str())
        }
    }
}

/// Whether enough entries have been read.
pub fn is_full(count: usize) -> (r: bool)
    ensures
        r == (count >= MAX_ENTRIES),
{
    count >= MAX_ENTRIES
}

/// An entry of a folder, from its path below the root as the machine writes it, and its length. A
/// folder has none.
pub fn entry(
    name: &str,
    below: &str,
    dir: bool,
    len: u64,
    modified: u64,
    symlink: bool,
) -> (r: Entry)
    ensures
        r.name@ == name@,
        r.path@ == replaced(below@, '\\', '/'),
        r.dir == dir,
        r.size == if dir {
            0
        } else {
            len
        },
        r.modified == modified,
        r.symlink == symlink,
{
    let size: u64 = if dir {
        0
    } else {
        len
    };
    Entry { name: name.to_string(), path: rel_of(below), dir, size, modified, symlink }
}

/// The entries that are listed of those that were found: as many as are listed, the first ones.
pub open spec fn kept(found: Seq<Entry>) -> Seq<Entry> {
    if found.len() > MAX_ENTRIES {
        found.take(MAX_ENTRIES as int)
    } else {
        found
    }
}

/// The listing of a folder: folders first, then files, each by name without regard to case.
/// `more` says whether there are entries beyond those that were read. Of more than are listed the
/// first are kept, and the listing says so.
pub fn list(path: &str, found: Vec<Entry>, more: bool) -> (r: Listing)
    ensures
        r.path@ == path@,
        r.truncated == (more || found@.len() > MAX_ENTRIES),
        r.entries@.len() == if found@.len() > MAX_ENTRIES {
            MAX_ENTRIES as nat
        } else {
            found@.len()
        },
        r.entries@.to_multiset() == kept(found@).to_multiset(),
        found@.len() <= MAX_ENTRIES ==> r.entries@.to_multiset() == found@.to_multiset(),
        ranked(r.entries@, true),
{
    let ghost f = found@;
    let truncated: bool = more || found.len() > MAX_ENTRIES;
    let mut entries = found;
    if entries.len() > MAX_ENTRIES {
        entries.truncate(MAX_ENTRIES);
        assert(entries@ =~= f.take(MAX_ENTRIES as int));
    }
    let ghost k = entries@;
    let entries = sort(entries, true);
    proof {
        k.to_multiset_ensures();
        entries@.to_multiset_ensures();
    }
    Listing { path: path.to_string(), entries, truncated }
}

/// Nothing is listed that was not found, and nothing more often than it was found.
pub proof fn only_what_was_found_is_listed(found: Seq<Entry>, listed: Seq<Entry>, e: Entry)
    requires
        listed.to_multiset() == kept(found).to_multiset(),
    ensures
        listed.contains(e) ==> found.contains(e),
        listed.to_multiset().count(e) <= found.to_multiset().count(e),
{
    let k = kept(found);
    let rest = if found.len() > MAX_ENTRIES {
        found.skip(MAX_ENTRIES as int)
    } else {
        Seq::empty()
    };
    assert(found =~= k + rest);
    vstd::seq_lib::lemma_multiset_commutative(k, rest);
    k.to_multiset_ensures();
    listed.to_multiset_ensures();
    found.to_multiset_ensures();
    if listed.contains(e) {
        assert(listed.to_multiset().count(e) > 0);
        assert(found.to_multiset().count(e) > 0);
    }
}

/// The error for a listing of what is no folder.
pub fn not_a_folder(path: &str) -> (r: String)
    ensures
        r@ == "'"@ + path@ + "' is not a folder"@,
{
    let mut s = "'".to_string();
    s.append(path);
    s.append("' is not a folder");
    s
}

/// The error for a preview of a folder.
pub fn is_a_folder(rel: &str) -> (r: String)
    ensures
        r@ == "'"@ + rel@ + "' is a folder"@,
{
    let mut s = "'".to_string();
    s.append(rel);
    s.append("' is a folder");
    s
}

// ---- preview --------------------------------------------------------------------------------------

/// Whether the bytes at the beginning of a file say that it is no text.
pub open spec fn looks_binary(b: Seq<u8>) -> bool {
    exists|i: int| 0 <= i < b.len() && i < SNIFF && #[trigger] b[i] == 0
}

/// Whether `r` shows a file of `size` bytes that begins with `bytes`: its text, unless it is none.
pub open spec fn previews(r: FileText, bytes: Seq<u8>, size: u64) -> bool {
    &&& r.binary == looks_binary(bytes)
    &&& r.text@ == if looks_binary(bytes) {
        Seq::empty()
    } else {
        lossy_of(bytes)
    }
    &&& r.truncated == (!looks_binary(bytes) && size > bytes.len())
}

/// The preview of a file of `size` bytes that begins with `bytes`.
pub fn read_text(path: &str, bytes: &[u8], size: u64) -> (r: FileText)
    ensures
        r.path@ == path@,
        r.size == size,
        previews(r, bytes@, size),
{
    let mut i: usize = 0;
    while i < bytes.len() && i < SNIFF
        invariant
            i <= bytes.len(),
            i <= SNIFF,
            forall|k: int| 0 <= k < i ==> #[trigger] bytes@[k] != 0,
        decreases bytes.len() - i,
    {
        if bytes[i] == 0 {
            assert(looks_binary(bytes@));
            let text = String::new();
            assert(text@ =~= Seq::empty());
            return FileText {
                path: path.to_string(),
                text,
                size,
                truncated: false,
                binary: true,
            };
        }
        i += 1;
    }
    FileText {
        path: path.to_string(),
        text: lossy(bytes),
        size,
        truncated: size > bytes.len() as u64,
        binary: false,
    }
}

// ---- what a path below the root leads to ---------------------------------------------------------------

/// A path with `/` between its parts and none around it is taken as it is; one with `\` between its
/// parts is the same path.
pub proof fn a_proper_path_is_taken_as_it_is(p: Seq<char>, q: Seq<char>)
    requires
        trim_of(p) == p,
        !p.contains('\\'),
        p.len() > 0 ==> p[0] != '/' && p.last() != '/',
    ensures
        normal(p) == p,
        trim_of(q) == q && replaced(q, '\\', '/') == p ==> normal(q) == p,
{
    assert(replaced(p, '\\', '/') =~= p) by {
        assert forall|i: int| 0 <= i < p.len() implies p[i] != '\\' by {
            if p[i] == '\\' {
                assert(p.contains('\\'));
            }
        }
    }
}

/// Only slashes at the ends of a path are taken away, all of them.
pub proof fn only_outer_slashes_go(p: Seq<char>)
    ensures
        unslashed_start(p).len() > 0 ==> unslashed_start(p)[0] != '/',
        unslashed_end(p).len() > 0 ==> unslashed_end(p).last() != '/',
        exists|a: Seq<char>|
            p == #[trigger] (a + unslashed_start(p)) && forall|i: int| 0 <= i < a.len() ==> #[trigger] a[i] == '/',
        exists|b: Seq<char>|
            p == #[trigger] (unslashed_end(p) + b) && forall|i: int| 0 <= i < b.len() ==> #[trigger] b[i] == '/',
{
    let a = slashes_before(p);
    let b = slashes_behind(p);
    assert(p == a + unslashed_start(p));
    assert(p == unslashed_end(p) + b);
}

proof fn slashes_before(p: Seq<char>) -> (a: Seq<char>)
    ensures
        p == a + unslashed_start(p),
        forall|i: int| 0 <= i < a.len() ==> #[trigger] a[i] == '/',
        unslashed_start(p).len() > 0 ==> unslashed_start(p)[0] != '/',
    decreases p.len(),
{
    if p.len() > 0 && p[0] == '/' {
        let r = slashes_before(p.skip(1));
        let a = seq!['/'] + r;
        assert(p =~= seq!['/'] + p.skip(1));
        assert(a + unslashed_start(p) =~= seq!['/'] + (r + unslashed_start(p.skip(1))));
        a
    } else {
        assert(p =~= Seq::<char>::empty() + p);
        Seq::empty()
    }
}

proof fn slashes_behind(p: Seq<char>) -> (b: Seq<char>)
    ensures
        p == unslashed_end(p) + b,
        forall|i: int| 0 <= i < b.len() ==> #[trigger] b[i] == '/',
        unslashed_end(p).len() > 0 ==> unslashed_end(p).last() != '/',
    decreases p.len(),
{
    if p.len() > 0 && p.last() == '/' {
        let r = slashes_behind(p.drop_last());
        let b = r.push('/');
        assert(p =~= p.drop_last().push('/'));
        assert(unslashed_end(p) + b =~= (unslashed_end(p.drop_last()) + r).push('/'));
        b
    } else {
        assert(p =~= p + Seq::<char>::empty());
        Seq::empty()
    }
}

/// A path that stays below the root is followed, one that is absolute or has a part that leads
/// upwards is refused, whatever stands around that part.
pub proof fn no_path_leads_out(
    r: Result<Option<String>, String>,
    root: Seq<char>,
    rel: Seq<char>,
    absolute: bool,
    i: int,
)
    requires
        resolving(r, root, rel, absolute),
        root.len() > 0,
        normal(rel).len() > 0,
        normal(rel) != "."@,
    ensures
        0 <= i < split_of(normal(rel), '/').len() && split_of(normal(rel), '/')[i] == ".."@ ==> r is Err,
        absolute ==> r is Err,
        !absolute && (forall|k: int|
            0 <= k < split_of(normal(rel), '/').len() ==> #[trigger] split_of(normal(rel), '/')[k]
                != ".."@) ==> (r matches Ok(Some(p)) && p@ == normal(rel)),
{
}

/// Folders stand before files, and each by name without regard to case.
pub proof fn folders_stand_first(a: Entry, b: Entry)
    ensures
        a.dir && !b.dir ==> may_stand_before(a, b) && !may_stand_before(b, a),
        a.dir == b.dir && precedes(lowercase_of(a.name@), lowercase_of(b.name@)) ==> may_stand_before(
            a,
            b,
        ) && !may_stand_before(b, a),
{
    order_is_total(lowercase_of(a.name@), lowercase_of(b.name@));
    order_is_total(lowercase_of(a.name@), lowercase_of(a.name@));
}

/// Every entry that was found is listed, where they are not too many.
pub proof fn every_entry_is_listed(found: Seq<Entry>, listed: Seq<Entry>, e: Entry)
    requires
        listed.to_multiset() == kept(found).to_multiset(),
        found.len() <= 5_000,
        found.contains(e),
    ensures
        listed.contains(e),
{
    assert(kept(found) == found);
    found.to_multiset_ensures();
    listed.to_multiset_ensures();
    assert(found.to_multiset().count(e) > 0);
    assert(listed.to_multiset().count(e) > 0);
}

/// A file with a zero byte at its beginning is no text, and one without is.
pub proof fn a_zero_byte_is_no_text(b: Seq<u8>, i: int)
    ensures
        0 <= i < b.len() && i < 8_000 && b[i] == 0 ==> looks_binary(b),
        (forall|k: int| 0 <= k < b.len() && k < 8_000 ==> #[trigger] b[k] != 0) ==> !looks_binary(b),
{
}

/// A file that is text is shown, as far as it was read; one that is not is said not to be, and shows
/// nothing.
pub proof fn a_text_file_is_shown(r: FileText, bytes: Seq<u8>, size: u64)
    requires
        previews(r, bytes, size),
    ensures
        (forall|i: int| 0 <= i < bytes.len() && i < 8_000 ==> #[trigger] bytes[i] != 0) ==> r.text@
            == lossy_of(bytes) && !r.binary && (r.truncated <==> size > bytes.len()),
        (exists|i: int| 0 <= i < bytes.len() && i < 8_000 && #[trigger] bytes[i] == 0) ==> r.text@.len()
            == 0 && r.binary && !r.truncated,
{
}

} // verus!
