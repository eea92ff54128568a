//! The API keys of providers, which the operating system keeps.

use vstd::prelude::*;

use crate::text::{between, opt_text, within};

verus! {

/// The name under which the program's keys are kept.
pub const SERVICE: &'static str = "e";

/// What the credential store said.
#[derive(Debug)]
pub enum Kept {
    /// It holds this key, or has done as it was told.
    Value(String),
    /// It holds no key.
    Missing,
    /// It failed, for this reason.
    Failed(String),
}

/// What is to be done with a key.
#[derive(Debug, Clone, Copy, PartialEq, Eq, Structural)]
pub enum Deed {
    Delete,
    Store,
}

pub enum KeptV {
    Value(Seq<char>),
    Missing,
    Failed(Seq<char>),
}

impl View for Kept {
    type V = KeptV;

    open spec fn view(&self) -> KeptV {
        match *self {
            Kept::Value(v) => KeptV::Value(v@),
            Kept::Missing => KeptV::Missing,
            Kept::Failed(e) => KeptV::Failed(e@),
        }
    }
}

/// The account under which a provider's key is kept.
pub open spec fn account_of(provider_id: Seq<char>) -> Seq<char> {
    "provider:"@ + provider_id
}

/// The account under which a provider's key is kept.
pub fn account(provider_id: &str) -> (r: String)
    ensures
        r@ == account_of(provider_id@),
{
    let mut s = "provider:".to_string();
    s.append(provider_id);
    s
}

/// The error where the store cannot be opened.
pub fn unopened(error: &str) -> (r: String)
    ensures
        r@ == "could not open the OS credential store: "@ + error@,
{
    let mut s = "could not open the OS credential store: ".to_string();
    s.append(error);
    s
}

pub open spec fn failure(
    deed: Seq<char>,
    provider_id: Seq<char>,
    place: Seq<char>,
    e: Seq<char>,
) -> Seq<char> {
    "could not "@ + deed + " the API key for provider '"@ + provider_id + "' "@ + place
        + " the OS credential store: "@ + e
}

fn failure_text(deed: &str, provider_id: &str, place: &str, e: &str) -> (r: String)
    ensures
        r@ == failure(deed@, provider_id@, place@, e@),
{
    let mut s = "could not ".to_string();
    s.append(deed);
    s.append(" the API key for provider '");
    s.append(provider_id);
    s.append("' ");
    s.append(place);
    s.append(" the OS credential store: ");
    s.append(e);
    s
}

/// What reading a key comes to: no key is no error.
pub open spec fn loaded(provider_id: Seq<char>, kept: KeptV) -> Result<
    Option<Seq<char>>,
    Seq<char>,
> {
    match kept {
        KeptV::Value(v) => Ok(Some(v)),
        KeptV::Missing => Ok(None),
        KeptV::Failed(e) => Err(failure("read"@, provider_id, "from"@, e)),
    }
}

/// What reading a key comes to: no key is no error.
pub fn load(provider_id: &str, kept: Kept) -> (r: Result<Option<String>, String>)
    ensures
        match (loaded(provider_id@, kept@), r) {
            (Ok(k), Ok(o)) => opt_text(o) == k,
            (Err(e), Err(m)) => m@ == e,
            _ => false,
        },
{
    match kept {
        Kept::Value(v) => Ok(Some(v)),
        Kept::Missing => Ok(None),
        Kept::Failed(e) => Err(failure_text("read", provider_id, "from", e.as_str())),
    }
}

/// What saving a key means: an empty key is deleted.
pub open spec fn deed_for(value: Seq<char>) -> Deed {
    if value.len() == 0 {
        Deed::Delete
    } else {
        Deed::Store
    }
}

/// What saving a key means: an empty key is deleted.
pub fn save(value: &str) -> (r: Deed)
    ensures
        r == deed_for(value@),
{
    if value.unicode_len() == 0 {
        Deed::Delete
    } else {
        Deed::Store
    }
}

/// What deleting a key means.
pub fn delete() -> (r: Deed)
    ensures
        r == Deed::Delete,
{
    proof {
        reveal_strlit("");
    }
    save("")
}

/// What a deed comes to: deleting a key that is not there is no error.
pub open spec fn settled(provider_id: Seq<char>, deed: Deed, kept: KeptV) -> Result<
    (),
    Seq<char>,
> {
    match kept {
        KeptV::Failed(e) => if deed == Deed::Delete {
            Err(failure("delete"@, provider_id, "from"@, e))
        } else {
            Err(failure("save"@, provider_id, "in"@, e))
        },
        _ => Ok(()),
    }
}

/// What a deed comes to: deleting a key that is not there is no error.
pub fn saved(provider_id: &str, deed: Deed, kept: Kept) -> (r: Result<(), String>)
    requires
        kept is Missing ==> deed == Deed::Delete,
    ensures
        match (settled(provider_id@, deed, kept@), r) {
            (Ok(_), Ok(_)) => true,
            (Err(e), Err(m)) => m@ == e,
            _ => false,
        },
{
    match kept {
        Kept::Value(_) => Ok(()),
        Kept::Missing => Ok(()),
        Kept::Failed(e) => match deed {
            Deed::Delete => Err(failure_text("delete", provider_id, "from", e.as_str())),
            Deed::Store => Err(failure_text("save", provider_id, "in", e.as_str())),
        },
    }
}

// ---- a store that is available ------------------------------------------------------------------------

/// What a store that holds these keys, by account, says when it is asked for a provider's.
pub open spec fn vault_reads(vault: Map<Seq<char>, Seq<char>>, provider_id: Seq<char>) -> KeptV {
    if vault.dom().contains(account_of(provider_id)) {
        KeptV::Value(vault[account_of(provider_id)])
    } else {
        KeptV::Missing
    }
}

/// What such a store holds after a deed.
pub open spec fn vault_after(
    vault: Map<Seq<char>, Seq<char>>,
    provider_id: Seq<char>,
    deed: Deed,
    value: Seq<char>,
) -> Map<Seq<char>, Seq<char>> {
    if deed == Deed::Delete {
        vault.remove(account_of(provider_id))
    } else {
        vault.insert(account_of(provider_id), value)
    }
}

/// What such a store says to a deed.
pub open spec fn vault_says(
    vault: Map<Seq<char>, Seq<char>>,
    provider_id: Seq<char>,
    deed: Deed,
) -> KeptV {
    if deed == Deed::Delete && !vault.dom().contains(account_of(provider_id)) {
        KeptV::Missing
    } else {
        KeptV::Value(Seq::empty())
    }
}

/// The key of a provider, read from such a store.
pub open spec fn key_in(vault: Map<Seq<char>, Seq<char>>, provider_id: Seq<char>) -> Result<
    Option<Seq<char>>,
    Seq<char>,
> {
    loaded(provider_id, vault_reads(vault, provider_id))
}

/// No two providers share an account.
pub proof fn accounts_differ(p: Seq<char>, q: Seq<char>)
    requires
        p != q,
    ensures
        account_of(p) != account_of(q),
{
    let n = "provider:"@.len() as int;
    if account_of(p) == account_of(q) {
        assert(account_of(p).skip(n) =~= p);
        assert(account_of(q).skip(n) =~= q);
    }
}

/// A key that was deleted is gone: deleting it succeeds, whether or not there was one, there is
/// none afterwards, and deleting it again changes nothing. The keys of other providers stay.
pub proof fn deleted_keys_are_gone(
    vault: Map<Seq<char>, Seq<char>>,
    p: Seq<char>,
    other: Seq<char>,
)
    ensures
        ({
            let after = vault_after(vault, p, Deed::Delete, Seq::empty());
            &&& settled(p, Deed::Delete, vault_says(vault, p, Deed::Delete)) is Ok
            &&& key_in(after, p) == Ok::<Option<Seq<char>>, Seq<char>>(None)
            &&& settled(p, Deed::Delete, vault_says(after, p, Deed::Delete)) is Ok
            &&& vault_after(after, p, Deed::Delete, Seq::empty()) == after
            &&& other != p ==> key_in(after, other) == key_in(vault, other)
        }),
{
    let after = vault_after(vault, p, Deed::Delete, Seq::empty());
    assert(vault_after(after, p, Deed::Delete, Seq::empty()) =~= after);
    if other != p {
        accounts_differ(p, other);
    }
}

/// A key that was saved is read back, an empty one is none, and the keys of other providers stay.
pub proof fn saved_keys_are_read_back(
    vault: Map<Seq<char>, Seq<char>>,
    p: Seq<char>,
    value: Seq<char>,
    other: Seq<char>,
)
    ensures
        ({
            let deed = deed_for(value);
            let after = vault_after(vault, p, deed, value);
            &&& settled(p, deed, vault_says(vault, p, deed)) is Ok
            &&& key_in(after, p) == Ok::<Option<Seq<char>>, Seq<char>>(
                if value.len() == 0 {
                    None
                } else {
                    Some(value)
                },
            )
            &&& other != p ==> key_in(after, other) == key_in(vault, other)
        }),
{
    if other != p {
        accounts_differ(p, other);
    }
}

/// Where the store fails, the error says what was to be done, for which provider, and why it failed.
pub proof fn a_failing_store_is_told(p: Seq<char>, why: Seq<char>)
    ensures
        loaded(p, KeptV::Failed(why)) matches Err(e) && within(p, e) && within(why, e) && within(
            "read"@,
            e,
        ),
        settled(p, Deed::Store, KeptV::Failed(why)) matches Err(e) && within(p, e) && within(why, e)
            && within("save"@, e),
        settled(p, Deed::Delete, KeptV::Failed(why)) matches Err(e) && within(p, e) && within(why, e)
            && within("delete"@, e),
{
    a_failure_holds_its_parts("read"@, p, "from"@, why);
    a_failure_holds_its_parts("save"@, p, "in"@, why);
    a_failure_holds_its_parts("delete"@, p, "from"@, why);
}

proof fn a_failure_holds_its_parts(
    deed: Seq<char>,
    p: Seq<char>,
    place: Seq<char>,
    why: Seq<char>,
)
    ensures
        within(deed, failure(deed, p, place, why)),
        within(p, failure(deed, p, place, why)),
        within(why, failure(deed, p, place, why)),
{
    let t = failure(deed, p, place, why);
    let a = "could not "@;
    let b = " the API key for provider '"@;
    let c = "' "@ + place + " the OS credential store: "@;
    assert(t =~= a + deed + b + p + c + why);
    between(a, deed, b + p + c + why, t);
    between(a + deed + b, p, c + why, t);
    between(a + deed + b + p + c, why, Seq::empty(), t);
}

/// A key that the store holds is the key that is read, and no key is no error; a deed that does not
/// fail succeeds.
pub proof fn what_the_store_holds_is_read(p: Seq<char>, v: Seq<char>, deed: Deed)
    ensures
        loaded(p, KeptV::Value(v)) == Ok::<Option<Seq<char>>, Seq<char>>(Some(v)),
        loaded(p, KeptV::Missing) == Ok::<Option<Seq<char>>, Seq<char>>(None),
        settled(p, deed, KeptV::Value(v)) is Ok,
        settled(p, deed, KeptV::Missing) is Ok,
        v.len() == 0 ==> deed_for(v) == Deed::Delete,
        v.len() > 0 ==> deed_for(v) == Deed::Store,
{
}

} // verus!
