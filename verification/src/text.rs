//! Operations on text, stated over sequences of characters.
//!
//! A `String` or `&str` is modelled by its characters (`s@`), and by their
//! UTF-8 encoding where a length in bytes matters.

use vstd::prelude::*;
use vstd::utf8::*;

verus! {

/// `String::push` appends one character at the end.
pub assume_specification[ String::push ](s: &mut String, c: char)
    ensures
        final(s)@ == old(s)@.push(c),
;

/// The views of a list of texts.
pub open spec fn texts(v: Seq<String>) -> Seq<Seq<char>> {
    Seq::new(v.len(), |i: int| v[i]@)
}

/// The view of an optional text.
pub open spec fn opt_text(o: Option<String>) -> Option<Seq<char>> {
    match o {
        Some(s) => Some(s@),
        None => None,
    }
}

/// The view of an optional slice of text.
pub open spec fn opt_str(o: Option<&str>) -> Option<Seq<char>> {
    match o {
        Some(s) => Some(s@),
        None => None,
    }
}

/// The characters of `s`, in order.
pub fn chars_of(s: &str) -> (r: Vec<char>)
    ensures
        r@ == s@,
{
    let mut r: Vec<char> = Vec::new();
    for c in it: s.chars()
        invariant
            r@ == it.seq().take(it.index() as int),
            it.seq() == s@,
    {
        r.push(c);
    }
    r
}

/// The text made of the characters `from..to` of `v`.
pub fn string_of(v: &Vec<char>, from: usize, to: usize) -> (r: String)
    requires
        from <= to <= v.len(),
    ensures
        r@ == v@.subrange(from as int, to as int),
{
    let mut r = String::new();
    let mut i: usize = from;
    while i < to
        invariant
            from <= i <= to <= v.len(),
            r@ == v@.subrange(from as int, i as int),
        decreases to - i,
    {
        r.push(v[i]);
        i += 1;
    }
    r
}

/// The length of `s` in bytes.
pub open spec fn byte_len(s: Seq<char>) -> nat {
    encode_utf8(s).len()
}

/// The length of `s` in bytes.
pub fn len_of(s: &str) -> (r: usize)
    ensures
        r == byte_len(s@),
{
    s.as_bytes().len()
}

/// Whether two texts are equal.
pub fn same(a: &str, b: &str) -> (r: bool)
    ensures
        r == (a@ == b@),
{
    let x = a.as_bytes();
    let y = b.as_bytes();
    proof {
        encode_utf8_decode_utf8(a@);
        encode_utf8_decode_utf8(b@);
    }
    if x.len() != y.len() {
        return false;
    }
    let mut i: usize = 0;
    while i < x.len()
        invariant
            i <= x.len(),
            x.len() == y.len(),
            x@ == encode_utf8(a@),
            y@ == encode_utf8(b@),
            forall|j: int| 0 <= j < i ==> x@[j] == y@[j],
        decreases x.len() - i,
    {
        if x[i] != y[i] {
            return false;
        }
        i += 1;
    }
    assert(x@ =~= y@);
    true
}

/// Whether `s` is one of `list`.
pub fn one_of(s: &str, list: &Vec<String>) -> (r: bool)
    ensures
        r == texts(list@).contains(s@),
{
    let mut i: usize = 0;
    while i < list.len()
        invariant
            i <= list.len(),
            forall|j: int| 0 <= j < i ==> list@[j]@ != s@,
        decreases list.len() - i,
    {
        if same(list[i].as_str(), s) {
            assert(texts(list@)[i as int] == s@);
            return true;
        }
        i += 1;
    }
    assert forall|j: int| 0 <= j < texts(list@).len() implies texts(list@)[j] != s@ by {
        assert(list@[j]@ != s@);
    }
    false
}

/// A copy of a list of texts.
pub fn copy_texts(list: &Vec<String>) -> (r: Vec<String>)
    ensures
        texts(r@) == texts(list@),
        r@.len() == list@.len(),
{
    let mut r: Vec<String> = Vec::new();
    let mut i: usize = 0;
    while i < list.len()
        invariant
            i <= list.len(),
            r@.len() == i,
            forall|j: int| 0 <= j < i ==> r@[j]@ == list@[j]@,
        decreases list.len() - i,
    {
        r.push(list[i].clone());
        i += 1;
    }
    assert(texts(r@) =~= texts(list@));
    r
}

/// A copy of an optional text.
pub fn copy_opt(o: &Option<String>) -> (r: Option<String>)
    ensures
        opt_text(r) == opt_text(*o),
{
    match o {
        Some(s) => Some(s.clone()),
        None => None,
    }
}

// ---- whitespace --------------------------------------------------------------

/// The characters with the Unicode property `White_Space`.
pub open spec fn is_white(c: char) -> bool {
    let n = c as u32;
    ||| 0x09 <= n <= 0x0d
    ||| n == 0x20
    ||| n == 0x85
    ||| n == 0xa0
    ||| n == 0x1680
    ||| 0x2000 <= n <= 0x200a
    ||| n == 0x2028
    ||| n == 0x2029
    ||| n == 0x202f
    ||| n == 0x205f
    ||| n == 0x3000
}

pub fn is_whitespace(c: char) -> (r: bool)
    ensures
        r == is_white(c),
{
    let n: u32 = c as u32;
    (0x09 <= n && n <= 0x0d) || n == 0x20 || n == 0x85 || n == 0xa0 || n == 0x1680 || (0x2000 <= n
        && n <= 0x200a) || n == 0x2028 || n == 0x2029 || n == 0x202f || n == 0x205f || n == 0x3000
}

/// `s` without its leading whitespace.
pub open spec fn trim_start_of(s: Seq<char>) -> Seq<char>
    decreases s.len(),
{
    if s.len() > 0 && is_white(s[0]) {
        trim_start_of(s.skip(1))
    } else {
        s
    }
}

/// `s` without its trailing whitespace.
pub open spec fn trim_end_of(s: Seq<char>) -> Seq<char>
    decreases s.len(),
{
    if s.len() > 0 && is_white(s.last()) {
        trim_end_of(s.drop_last())
    } else {
        s
    }
}

/// `s` without its leading and trailing whitespace.
pub open spec fn trim_of(s: Seq<char>) -> Seq<char> {
    trim_end_of(trim_start_of(s))
}

/// Whether `s` holds nothing but whitespace.
pub open spec fn blank(s: Seq<char>) -> bool {
    forall|i: int| 0 <= i < s.len() ==> is_white(#[trigger] s[i])
}

/// Trimming leaves nothing exactly when there is nothing but whitespace.
pub proof fn trim_is_empty_iff_blank(s: Seq<char>)
    ensures
        trim_of(s).len() == 0 <==> blank(s),
{
    trim_start_facts(s);
    let t = trim_start_of(s);
    trim_end_facts(t);
    if blank(s) {
        assert(t.len() == 0);
    } else {
        let i = choose|i: int| 0 <= i < s.len() && !is_white(s[i]);
        if t.len() == 0 {
            assert(is_white(s[i]));
        }
        assert(t.len() > 0 && !is_white(t[0]));
        if trim_end_of(t).len() == 0 {
            assert(is_white(t[0]));
        }
    }
}

/// A trimmed text begins with no whitespace.
pub proof fn trimmed_text_starts_with_no_space(s: Seq<char>)
    requires
        !blank(s),
    ensures
        trim_of(s).len() > 0,
        !is_white(trim_of(s)[0]),
{
    trim_is_empty_iff_blank(s);
    trim_start_facts(s);
    let t = trim_start_of(s);
    trim_end_facts(t);
    assert(trim_of(s)[0] == t[0]);
}

proof fn trim_start_facts(s: Seq<char>)
    ensures
        trim_start_of(s).len() <= s.len(),
        trim_start_of(s) == s.skip(s.len() - trim_start_of(s).len()),
        forall|i: int| 0 <= i < s.len() - trim_start_of(s).len() ==> is_white(#[trigger] s[i]),
        trim_start_of(s).len() > 0 ==> !is_white(trim_start_of(s)[0]),
    decreases s.len(),
{
    if s.len() > 0 && is_white(s[0]) {
        let t = s.skip(1);
        trim_start_facts(t);
        assert(trim_start_of(s) =~= s.skip(s.len() - trim_start_of(s).len()));
        assert forall|i: int| 0 <= i < s.len() - trim_start_of(s).len() implies is_white(
            #[trigger] s[i],
        ) by {
            if i > 0 {
                assert(t[i - 1] == s[i]);
            }
        }
    } else {
        assert(s.skip(0) =~= s);
    }
}

proof fn trim_end_facts(s: Seq<char>)
    ensures
        trim_end_of(s).len() <= s.len(),
        trim_end_of(s) == s.take(trim_end_of(s).len() as int),
        forall|i: int| trim_end_of(s).len() <= i < s.len() ==> is_white(#[trigger] s[i]),
        trim_end_of(s).len() > 0 ==> !is_white(trim_end_of(s).last()),
    decreases s.len(),
{
    if s.len() > 0 && is_white(s.last()) {
        let t = s.drop_last();
        trim_end_facts(t);
        assert(trim_end_of(s) =~= s.take(trim_end_of(s).len() as int));
        assert forall|i: int| trim_end_of(s).len() <= i < s.len() implies is_white(
            #[trigger] s[i],
        ) by {
            if i < s.len() - 1 {
                assert(t[i] == s[i]);
            }
        }
    } else {
        assert(s.take(s.len() as int) =~= s);
    }
}

proof fn trim_start_skips(s: Seq<char>, n: int)
    requires
        0 <= n <= s.len(),
        forall|i: int| 0 <= i < n ==> is_white(#[trigger] s[i]),
    ensures
        trim_start_of(s) == trim_start_of(s.skip(n)),
    decreases n,
{
    if n > 0 {
        let t = s.skip(1);
        assert forall|i: int| 0 <= i < n - 1 implies is_white(#[trigger] t[i]) by {
            assert(t[i] == s[i + 1]);
        }
        trim_start_skips(t, n - 1);
        assert(t.skip(n - 1) =~= s.skip(n));
    } else {
        assert(s.skip(0) =~= s);
    }
}

proof fn trim_end_drops(s: Seq<char>, n: int)
    requires
        0 <= n <= s.len(),
        forall|i: int| n <= i < s.len() ==> is_white(#[trigger] s[i]),
    ensures
        trim_end_of(s) == trim_end_of(s.take(n)),
    decreases s.len() - n,
{
    if n < s.len() {
        let t = s.drop_last();
        assert forall|i: int| n <= i < t.len() implies is_white(#[trigger] t[i]) by {
            assert(t[i] == s[i]);
        }
        trim_end_drops(t, n);
        assert(t.take(n) =~= s.take(n));
    } else {
        assert(s.take(n) =~= s);
    }
}

/// `s` without its leading whitespace.
pub fn trim_start(s: &str) -> (r: String)
    ensures
        r@ == trim_start_of(s@),
{
    let v = chars_of(s);
    let mut a: usize = 0;
    while a < v.len() && is_whitespace(v[a])
        invariant
            a <= v.len(),
            forall|i: int| 0 <= i < a ==> is_white(#[trigger] v@[i]),
        decreases v.len() - a,
    {
        a += 1;
    }
    proof {
        trim_start_skips(s@, a as int);
        assert(v@.subrange(a as int, v@.len() as int) =~= s@.skip(a as int));
    }
    string_of(&v, a, v.len())
}

/// `s` without its trailing whitespace.
pub fn trim_end(s: &str) -> (r: String)
    ensures
        r@ == trim_end_of(s@),
{
    let v = chars_of(s);
    let mut b: usize = v.len();
    while b > 0 && is_whitespace(v[b - 1])
        invariant
            b <= v.len(),
            forall|i: int| b <= i < v.len() ==> is_white(#[trigger] v@[i]),
        decreases b,
    {
        b -= 1;
    }
    proof {
        trim_end_drops(s@, b as int);
        assert(v@.subrange(0, b as int) =~= s@.take(b as int));
    }
    string_of(&v, 0, b)
}

/// `s` without its leading and trailing whitespace.
pub fn trim(s: &str) -> (r: String)
    ensures
        r@ == trim_of(s@),
{
    let t = trim_start(s);
    trim_end(t.as_str())
}

/// Whether `s` holds nothing but whitespace.
pub fn is_blank(s: &str) -> (r: bool)
    ensures
        r == blank(s@),
{
    let v = chars_of(s);
    let mut i: usize = 0;
    while i < v.len()
        invariant
            i <= v.len(),
            v@ == s@,
            forall|k: int| 0 <= k < i ==> is_white(#[trigger] s@[k]),
        decreases v.len() - i,
    {
        if !is_whitespace(v[i]) {
            assert(!is_white(s@[i as int]));
            return false;
        }
        i += 1;
    }
    true
}

// ---- ASCII case ----------------------------------------------------------------

pub open spec fn lower_char(c: char) -> char {
    if 'A' <= c <= 'Z' {
        (((c as u32) as u8 + 32) as u8) as char
    } else {
        c
    }
}

/// `s` with its ASCII capitals made small.
pub open spec fn lower_of(s: Seq<char>) -> Seq<char> {
    Seq::new(s.len(), |i: int| lower_char(s[i]))
}

pub fn to_lower_char(c: char) -> (r: char)
    ensures
        r == lower_char(c),
{
    if 'A' <= c && c <= 'Z' {
        let n: u32 = c as u32;
        let b: u8 = n as u8;
        (b + 32) as char
    } else {
        c
    }
}

/// `s` with its ASCII capitals made small.
pub fn to_ascii_lowercase(s: &str) -> (r: String)
    ensures
        r@ == lower_of(s@),
{
    let v = chars_of(s);
    let mut r = String::new();
    let mut i: usize = 0;
    while i < v.len()
        invariant
            i <= v.len(),
            v@ == s@,
            r@ == lower_of(s@).take(i as int),
        decreases v.len() - i,
    {
        r.push(to_lower_char(v[i]));
        i += 1;
    }
    r
}

/// What `str::to_lowercase` makes of a text, by the rules of Unicode.
pub uninterp spec fn lowercase_of(s: Seq<char>) -> Seq<char>;

/// `str::to_lowercase`. Its result is a function of the text.
#[verifier::external_body]
pub(crate) fn lowercase(s: &str) -> (r: String)
    ensures
        r@ == lowercase_of(s@),
{
    s.to_lowercase()
}

// ---- numbers -------------------------------------------------------------------

pub open spec fn digit(d: nat) -> char {
    if d < 10 {
        ((48 + d) as u8) as char
    } else {
        ((87 + d) as u8) as char
    }
}

/// `n` written in base `base`, most significant digit first.
pub open spec fn digits(n: nat, base: nat) -> Seq<char>
    decreases n,
    via digits_decreases
{
    if n < base || base < 2 {
        seq![digit(n)]
    } else {
        digits(n / base, base).push(digit(n % base))
    }
}

#[via_fn]
proof fn digits_decreases(n: nat, base: nat) {
    if n >= base && base >= 2 {
        assert(n / base < n) by (nonlinear_arith)
            requires
                n >= base,
                base >= 2,
        ;
    }
}

/// `n` in decimal.
pub open spec fn decimal_of(n: nat) -> Seq<char> {
    digits(n, 10)
}

/// `n` in hexadecimal, with small letters.
pub open spec fn hex_of(n: nat) -> Seq<char> {
    digits(n, 16)
}

fn in_base(n: u128, base: u128) -> (r: String)
    requires
        base == 10 || base == 16,
    ensures
        r@ == digits(n as nat, base as nat),
    decreases n,
{
    let d: u8 = (n % base) as u8;
    let c: char = if d < 10 {
        (48 + d) as char
    } else {
        (87 + d) as char
    };
    if n < base {
        let mut r = String::new();
        r.push(c);
        assert(r@ =~= seq![digit(n as nat)]);
        r
    } else {
        assert(n / base < n) by (nonlinear_arith)
            requires
                n >= base,
                base >= 2,
        ;
        let mut r = in_base(n / base, base);
        r.push(c);
        r
    }
}

/// `n` in decimal.
pub fn decimal(n: u64) -> (r: String)
    ensures
        r@ == decimal_of(n as nat),
{
    in_base(n as u128, 10)
}

/// `n` in hexadecimal, with small letters.
pub fn hex(n: u128) -> (r: String)
    ensures
        r@ == hex_of(n as nat),
{
    in_base(n, 16)
}

proof fn decimal_digits(n: nat)
    ensures
        decimal_of(n).len() > 0,
        n >= 10 ==> decimal_of(n).len() > 1,
        forall|i: int| 0 <= i < decimal_of(n).len() ==> '0' <= #[trigger] decimal_of(n)[i] <= '9',
    decreases n,
{
    if n >= 10 {
        decimal_digits(n / 10);
        let p = decimal_of(n / 10);
        assert forall|i: int| 0 <= i < decimal_of(n).len() implies '0' <= #[trigger] decimal_of(
            n,
        )[i] <= '9' by {
            if i < p.len() {
                assert(decimal_of(n)[i] == p[i]);
            }
        }
    }
}

/// Different numbers are written differently.
pub proof fn decimal_tells_apart(a: nat, b: nat)
    requires
        decimal_of(a) == decimal_of(b),
    ensures
        a == b,
    decreases a,
{
    decimal_digits(a);
    decimal_digits(b);
    if a < 10 {
        assert(decimal_of(a)[0] == digit(a));
        assert(decimal_of(b)[0] == digit(b));
    } else {
        assert(b >= 10);
        let p = decimal_of(a / 10);
        let q = decimal_of(b / 10);
        assert(decimal_of(a).last() == digit(a % 10));
        assert(decimal_of(b).last() == digit(b % 10));
        assert(decimal_of(a).drop_last() =~= p);
        assert(decimal_of(b).drop_last() =~= q);
        decimal_tells_apart(a / 10, b / 10);
    }
}

/// Texts that end in a separator and a number end in the same number where they are equal.
pub proof fn numbered_endings_tell_apart(p: Seq<char>, a: nat, q: Seq<char>, b: nat, sep: char)
    requires
        !('0' <= sep <= '9'),
        p.push(sep) + decimal_of(a) == q.push(sep) + decimal_of(b),
    ensures
        a == b,
        p == q,
{
    let x = decimal_of(a);
    let y = decimal_of(b);
    let s = p.push(sep) + x;
    let t = q.push(sep) + y;
    decimal_digits(a);
    decimal_digits(b);
    assert(s.len() == p.len() + 1 + x.len());
    assert(t.len() == q.len() + 1 + y.len());
    assert(s == t);
    if x.len() < y.len() {
        assert(s[p.len() as int] == sep);
        assert(t[p.len() as int] == y[p.len() - q.len() - 1]);
    } else if y.len() < x.len() {
        assert(t[q.len() as int] == sep);
        assert(s[q.len() as int] == x[q.len() - p.len() - 1]);
    }
    assert(x.len() == y.len());
    assert(s.skip(p.len() as int + 1) =~= x);
    assert(t.skip(q.len() as int + 1) =~= y);
    assert(s.take(p.len() as int) =~= p);
    assert(t.take(q.len() as int) =~= q);
    decimal_tells_apart(a, b);
}

/// `n` in decimal, with a sign where it is negative.
pub open spec fn signed_of(n: int) -> Seq<char> {
    if n < 0 {
        "-"@ + decimal_of((-n) as nat)
    } else {
        decimal_of(n as nat)
    }
}

/// `n` in decimal, with a sign where it is negative.
pub fn signed(n: i32) -> (r: String)
    ensures
        r@ == signed_of(n as int),
{
    if n < 0 {
        let m: i64 = -(n as i64);
        let mut s = "-".to_string();
        s.append(decimal(m as u64).as_str());
        s
    } else {
        decimal(n as u64)
    }
}

// ---- searching and cutting ---------------------------------------------------------

/// Whether `n` stands in `h` at index `i`.
pub open spec fn occurs_at(h: Seq<char>, n: Seq<char>, i: int) -> bool {
    0 <= i && i + n.len() <= h.len() && h.subrange(i, i + n.len()) == n
}

/// The first index from `i` on at which `n` stands in `h`.
pub open spec fn first_from(h: Seq<char>, n: Seq<char>, i: int) -> Option<int>
    decreases h.len() + 1 - i,
{
    if i < 0 || i + n.len() > h.len() {
        None
    } else if h.subrange(i, i + n.len()) == n {
        Some(i)
    } else {
        first_from(h, n, i + 1)
    }
}

/// The first index at which `n` stands in `h`.
pub open spec fn find_of(h: Seq<char>, n: Seq<char>) -> Option<int> {
    first_from(h, n, 0)
}

/// What a search finds: an occurrence, and the first from its starting point on.
pub proof fn first_from_is_first(h: Seq<char>, n: Seq<char>, i: int)
    requires
        0 <= i,
    ensures
        first_from(h, n, i) matches Some(k) ==> {
            &&& i <= k
            &&& occurs_at(h, n, k)
            &&& forall|j: int| i <= j < k ==> !#[trigger] occurs_at(h, n, j)
        },
        first_from(h, n, i) is None ==> forall|j: int| i <= j ==> !#[trigger] occurs_at(h, n, j),
    decreases h.len() + 1 - i,
{
    if i + n.len() <= h.len() && h.subrange(i, i + n.len()) != n {
        first_from_is_first(h, n, i + 1);
    }
}

fn stands_at(h: &Vec<char>, n: &Vec<char>, i: usize) -> (r: bool)
    requires
        i + n.len() <= h.len(),
    ensures
        r == (h@.subrange(i as int, i + n@.len()) == n@),
{
    let mut k: usize = 0;
    while k < n.len()
        invariant
            k <= n.len(),
            i + n.len() <= h.len(),
            forall|j: int| 0 <= j < k ==> h@[i + j] == n@[j],
        decreases n.len() - k,
    {
        if h[i + k] != n[k] {
            assert(h@.subrange(i as int, i + n@.len())[k as int] != n@[k as int]);
            return false;
        }
        k += 1;
    }
    assert(h@.subrange(i as int, i + n@.len()) =~= n@);
    true
}

/// The first index, in characters, from `from` on at which `needle` stands in `hay`.
pub fn find_from(hay: &Vec<char>, needle: &Vec<char>, from: usize) -> (r: Option<usize>)
    ensures
        match r {
            Some(i) => first_from(hay@, needle@, from as int) == Some(i as int),
            None => first_from(hay@, needle@, from as int) is None,
        },
{
    let mut i: usize = from;
    while i <= hay.len() && needle.len() <= hay.len() - i
        invariant
            from <= i,
            i <= hay.len() || i == from,
            first_from(hay@, needle@, from as int) == first_from(hay@, needle@, i as int),
        decreases hay.len() + 1 - i,
    {
        if stands_at(hay, needle, i) {
            return Some(i);
        }
        if i == hay.len() {
            assert(first_from(hay@, needle@, i + 1) is None);
            return None;
        }
        i += 1;
    }
    None
}

/// The first index, in characters, at which `needle` stands in `hay`.
pub fn find(hay: &str, needle: &str) -> (r: Option<usize>)
    ensures
        match r {
            Some(i) => find_of(hay@, needle@) == Some(i as int),
            None => find_of(hay@, needle@) is None,
        },
{
    let h = chars_of(hay);
    let n = chars_of(needle);
    find_from(&h, &n, 0)
}

/// Whether `needle` stands somewhere in `hay`.
pub fn contains(hay: &str, needle: &str) -> (r: bool)
    ensures
        r == find_of(hay@, needle@) is Some,
{
    find(hay, needle).is_some()
}

/// The characters `from..to` of `s`.
pub fn slice(s: &str, from: usize, to: usize) -> (r: String)
    requires
        from <= to <= s@.len(),
    ensures
        r@ == s@.subrange(from as int, to as int),
{
    let v = chars_of(s);
    string_of(&v, from, to)
}

pub open spec fn starts(s: Seq<char>, p: Seq<char>) -> bool {
    p.len() <= s.len() && s.take(p.len() as int) == p
}

pub open spec fn ends(s: Seq<char>, p: Seq<char>) -> bool {
    p.len() <= s.len() && s.skip(s.len() - p.len()) == p
}

/// Whether `s` begins with `p`.
pub fn starts_with(s: &str, p: &str) -> (r: bool)
    ensures
        r == starts(s@, p@),
{
    let v = chars_of(s);
    let n = chars_of(p);
    if n.len() > v.len() {
        return false;
    }
    assert(s@.take(p@.len() as int) =~= v@.subrange(0, n@.len() as int));
    stands_at(&v, &n, 0)
}

/// Whether `s` ends with `p`.
pub fn ends_with(s: &str, p: &str) -> (r: bool)
    ensures
        r == ends(s@, p@),
{
    let v = chars_of(s);
    let n = chars_of(p);
    if n.len() > v.len() {
        return false;
    }
    assert(s@.skip(s@.len() - p@.len()) =~= v@.subrange(v@.len() - n@.len(), v@.len() as int));
    stands_at(&v, &n, v.len() - n.len())
}

/// What follows `p` in `s`, where `s` begins with it.
pub open spec fn after(s: Seq<char>, p: Seq<char>) -> Option<Seq<char>> {
    if starts(s, p) {
        Some(s.skip(p.len() as int))
    } else {
        None
    }
}

/// What follows `p` in `s`, where `s` begins with it.
pub fn strip_prefix(s: &str, p: &str) -> (r: Option<String>)
    ensures
        opt_text(r) == after(s@, p@),
{
    let v = chars_of(s);
    let n = chars_of(p);
    if n.len() > v.len() {
        return None;
    }
    assert(s@.take(p@.len() as int) =~= v@.subrange(0, n@.len() as int));
    if stands_at(&v, &n, 0) {
        assert(s@.skip(p@.len() as int) =~= v@.subrange(n@.len() as int, v@.len() as int));
        Some(string_of(&v, n.len(), v.len()))
    } else {
        None
    }
}

/// The pieces of `s` between the occurrences of `sep`.
pub open spec fn split_of(s: Seq<char>, sep: char) -> Seq<Seq<char>>
    decreases s.len(),
{
    if s.len() == 0 {
        seq![Seq::<char>::empty()]
    } else {
        let p = split_of(s.drop_last(), sep);
        if s.last() == sep {
            p.push(Seq::empty())
        } else {
            p.drop_last().push(p.last().push(s.last()))
        }
    }
}

/// The pieces of `s` between the occurrences of `sep`.
pub fn split(s: &str, sep: char) -> (r: Vec<String>)
    ensures
        texts(r@) == split_of(s@, sep),
        r@.len() > 0,
{
    let v = chars_of(s);
    let mut done: Vec<String> = Vec::new();
    let mut cur = String::new();
    let mut i: usize = 0;
    assert(v@.take(0) =~= Seq::empty());
    assert(texts(done@).push(cur@) =~= seq![Seq::<char>::empty()]);
    while i < v.len()
        invariant
            i <= v.len(),
            texts(done@).push(cur@) == split_of(v@.take(i as int), sep),
        decreases v.len() - i,
    {
        let ghost before = v@.take(i as int);
        let ghost p = texts(done@).push(cur@);
        assert(v@.take(i + 1).drop_last() =~= before);
        assert(p.drop_last() =~= texts(done@));
        if v[i] == sep {
            let ghost d0 = done@;
            done.push(cur);
            cur = String::new();
            assert(texts(done@) =~= p);
            assert(texts(done@).push(cur@) =~= p.push(Seq::empty()));
        } else {
            cur.push(v[i]);
        }
        i += 1;
    }
    assert(v@.take(v@.len() as int) =~= v@);
    let ghost d = texts(done@).push(cur@);
    done.push(cur);
    assert(texts(done@) =~= d);
    done
}

/// `parts` with `sep` between them.
pub open spec fn join_of(parts: Seq<Seq<char>>, sep: Seq<char>) -> Seq<char>
    decreases parts.len(),
{
    if parts.len() == 0 {
        Seq::empty()
    } else if parts.len() == 1 {
        parts[0]
    } else {
        join_of(parts.drop_last(), sep) + sep + parts.last()
    }
}

/// `parts` with `sep` between them.
pub fn join(parts: &Vec<String>, sep: &str) -> (r: String)
    ensures
        r@ == join_of(texts(parts@), sep@),
{
    let mut r = String::new();
    let mut i: usize = 0;
    let ghost t = texts(parts@);
    while i < parts.len()
        invariant
            i <= parts.len(),
            t == texts(parts@),
            r@ == join_of(t.take(i as int), sep@),
        decreases parts.len() - i,
    {
        assert(t.take(i + 1).drop_last() =~= t.take(i as int));
        if i > 0 {
            r.append(sep);
        }
        r.append(parts[i].as_str());
        assert(i == 0 ==> r@ =~= t[0]);
        i += 1;
    }
    assert(t.take(t.len() as int) =~= t);
    r
}

/// `s` with every `from` made a `to`.
pub open spec fn replaced(s: Seq<char>, from: char, to: char) -> Seq<char> {
    Seq::new(s.len(), |i: int| if s[i] == from { to } else { s[i] })
}

/// `s` with every `from` made a `to`.
pub fn replace_char(s: &str, from: char, to: char) -> (r: String)
    ensures
        r@ == replaced(s@, from, to),
{
    let v = chars_of(s);
    let mut r = String::new();
    let mut i: usize = 0;
    while i < v.len()
        invariant
            i <= v.len(),
            v@ == s@,
            r@ == replaced(s@, from, to).take(i as int),
        decreases v.len() - i,
    {
        if v[i] == from {
            r.push(to);
        } else {
            r.push(v[i]);
        }
        i += 1;
    }
    r
}

/// Whether `a` comes before `b` in the order of their code points.
pub open spec fn precedes(a: Seq<char>, b: Seq<char>) -> bool
    decreases a.len(),
{
    if b.len() == 0 {
        false
    } else if a.len() == 0 {
        true
    } else if a[0] == b[0] {
        precedes(a.skip(1), b.skip(1))
    } else {
        a[0] < b[0]
    }
}

/// Whether `a` comes before `b` in the order of their code points.
pub fn before(a: &str, b: &str) -> (r: bool)
    ensures
        r == precedes(a@, b@),
{
    let x = chars_of(a);
    let y = chars_of(b);
    let mut i: usize = 0;
    assert(a@.skip(0) =~= a@);
    assert(b@.skip(0) =~= b@);
    while i < x.len() && i < y.len()
        invariant
            i <= x.len(),
            i <= y.len(),
            x@ == a@,
            y@ == b@,
            precedes(a@, b@) == precedes(a@.skip(i as int), b@.skip(i as int)),
        decreases x.len() - i,
    {
        if x[i] != y[i] {
            return x[i] < y[i];
        }
        assert(a@.skip(i as int).skip(1) =~= a@.skip(i + 1));
        assert(b@.skip(i as int).skip(1) =~= b@.skip(i + 1));
        i += 1;
    }
    x.len() < y.len()
}

// ---- order -----------------------------------------------------------------------------------

/// Whether `a` stands before `b` or is equal to it.
pub open spec fn at_most(a: Seq<char>, b: Seq<char>) -> bool {
    !precedes(b, a)
}

pub proof fn order_is_transitive(a: Seq<char>, b: Seq<char>, c: Seq<char>)
    requires
        at_most(a, b),
        at_most(b, c),
    ensures
        at_most(a, c),
    decreases a.len(),
{
    if a.len() > 0 && b.len() > 0 && c.len() > 0 && a[0] == b[0] && b[0] == c[0] {
        order_is_transitive(a.skip(1), b.skip(1), c.skip(1));
    }
}

pub proof fn order_is_total(a: Seq<char>, b: Seq<char>)
    ensures
        at_most(a, b) || at_most(b, a),
        at_most(a, b) && at_most(b, a) ==> a == b,
    decreases a.len(),
{
    if a.len() > 0 && b.len() > 0 && a[0] == b[0] {
        order_is_total(a.skip(1), b.skip(1));
        if at_most(a, b) && at_most(b, a) {
            assert(a =~= seq![a[0]] + a.skip(1));
            assert(b =~= seq![b[0]] + b.skip(1));
        }
    } else if a.len() == 0 && b.len() == 0 {
        assert(a =~= b);
    }
}

/// Whether texts stand in order.
pub open spec fn in_order(v: Seq<Seq<char>>) -> bool {
    forall|i: int, j: int| 0 <= i < j < v.len() ==> at_most(#[trigger] v[i], #[trigger] v[j])
}

proof fn multiset_of_push(a: Seq<Seq<char>>, x: Seq<char>)
    ensures
        a.push(x).to_multiset() == a.to_multiset().insert(x),
{
    a.to_multiset_ensures();
}

proof fn multiset_of_concat(a: Seq<Seq<char>>, b: Seq<Seq<char>>)
    ensures
        (a + b).to_multiset() == a.to_multiset().add(b.to_multiset()),
{
    vstd::seq_lib::lemma_multiset_commutative(a, b);
}

fn merged(a: &Vec<String>, b: &Vec<String>) -> (r: Vec<String>)
    requires
        in_order(texts(a@)),
        in_order(texts(b@)),
    ensures
        in_order(texts(r@)),
        texts(r@).to_multiset() == texts(a@).to_multiset().add(texts(b@).to_multiset()),
{
    let ghost x = texts(a@);
    let ghost y = texts(b@);
    let mut out: Vec<String> = Vec::new();
    let mut i: usize = 0;
    let mut j: usize = 0;
    assert(texts(out@) =~= Seq::empty());
    assert(x.take(0) =~= Seq::empty());
    assert(y.take(0) =~= Seq::empty());
    proof {
        multiset_of_concat(x.take(0), y.take(0));
        assert(x.take(0) + y.take(0) =~= Seq::empty());
    }
    while i < a.len() || j < b.len()
        invariant
            i <= a.len(),
            j <= b.len(),
            x == texts(a@),
            y == texts(b@),
            in_order(x),
            in_order(y),
            in_order(texts(out@)),
            texts(out@).to_multiset() == x.take(i as int).to_multiset().add(
                y.take(j as int).to_multiset(),
            ),
            forall|k: int, m: int|
                0 <= k < out@.len() && i <= m < x.len() ==> at_most(
                    #[trigger] texts(out@)[k],
                    #[trigger] x[m],
                ),
            forall|k: int, m: int|
                0 <= k < out@.len() && j <= m < y.len() ==> at_most(
                    #[trigger] texts(out@)[k],
                    #[trigger] y[m],
                ),
        decreases a.len() - i + b.len() - j,
    {
        let left: bool = if i >= a.len() {
            false
        } else if j >= b.len() {
            true
        } else {
            !before(b[j].as_str(), a[i].as_str())
        };
        let ghost o = texts(out@);
        if left {
            proof {
                assert(x.take(i + 1) =~= x.take(i as int).push(x[i as int]));
                multiset_of_push(x.take(i as int), x[i as int]);
                multiset_of_push(o, x[i as int]);
                assert forall|m: int| j <= m < y.len() implies at_most(x[i as int], #[trigger] y[m]) by {
                    if m > j {
                        order_is_transitive(x[i as int], y[j as int], y[m]);
                    }
                }
            }
            out.push(a[i].clone());
            assert(texts(out@) =~= o.push(x[i as int]));
            assert(o.to_multiset().insert(x[i as int]) =~= x.take(i + 1).to_multiset().add(
                y.take(j as int).to_multiset(),
            ));
            i += 1;
        } else {
            proof {
                assert(y.take(j + 1) =~= y.take(j as int).push(y[j as int]));
                multiset_of_push(y.take(j as int), y[j as int]);
                multiset_of_push(o, y[j as int]);
                if i < x.len() {
                    order_is_total(x[i as int], y[j as int]);
                }
                assert forall|m: int| i <= m < x.len() implies at_most(y[j as int], #[trigger] x[m]) by {
                    if m > i {
                        order_is_transitive(y[j as int], x[i as int], x[m]);
                    }
                }
            }
            out.push(b[j].clone());
            assert(texts(out@) =~= o.push(y[j as int]));
            assert(o.to_multiset().insert(y[j as int]) =~= x.take(i as int).to_multiset().add(
                y.take(j + 1).to_multiset(),
            ));
            j += 1;
        }
    }
    assert(x.take(x.len() as int) =~= x);
    assert(y.take(y.len() as int) =~= y);
    out
}

/// The texts in order.
pub fn sorted(list: Vec<String>) -> (r: Vec<String>)
    ensures
        in_order(texts(r@)),
        texts(r@).to_multiset() == texts(list@).to_multiset(),
        r@.len() == list@.len(),
    decreases list@.len(),
{
    if list.len() <= 1 {
        return list;
    }
    let ghost whole = texts(list@);
    let mut front = list;
    let half: usize = front.len() / 2;
    let back = front.split_off(half);
    let ghost f = texts(front@);
    let ghost b = texts(back@);
    let front_sorted = sorted(front);
    let back_sorted = sorted(back);
    let r = merged(&front_sorted, &back_sorted);
    proof {
        multiset_of_concat(f, b);
        assert(whole =~= f + b);
        texts(r@).to_multiset_ensures();
        whole.to_multiset_ensures();
    }
    r
}

// ---- what holds of every text ---------------------------------------------------------------------

/// Whether `piece` stands somewhere in `t`.
pub open spec fn within(piece: Seq<char>, t: Seq<char>) -> bool {
    exists|a: Seq<char>, b: Seq<char>| t == #[trigger] (a + piece + b)
}

/// What stands between two texts stands within the three.
pub proof fn between(a: Seq<char>, piece: Seq<char>, b: Seq<char>, t: Seq<char>)
    requires
        t =~= a + piece + b,
    ensures
        within(piece, t),
{
    assert(t == a + piece + b);
}

/// What stands within a part stands within the whole.
pub proof fn within_whole(piece: Seq<char>, part: Seq<char>, t: Seq<char>)
    requires
        within(piece, part),
        within(part, t),
    ensures
        within(piece, t),
{
    let (a, b) = choose|a: Seq<char>, b: Seq<char>| part == #[trigger] (a + piece + b);
    let (c, d) = choose|c: Seq<char>, d: Seq<char>| t == #[trigger] (c + part + d);
    between(c + a, piece, b + d, t);
}

/// The whitespace that texts are made of is whitespace, and no letter, digit or mark of ASCII is.
pub proof fn spaces_are_white(c: char)
    ensures
        c == ' ' || c == '\t' || c == '\n' || c == '\r' ==> is_white(c),
        '!' <= c <= '~' ==> !is_white(c),
{
}

proof fn space_at_the_start(s: Seq<char>) -> (a: Seq<char>)
    ensures
        blank(a),
        s == a + trim_start_of(s),
{
    trim_start_facts(s);
    let t = trim_start_of(s);
    let a = s.take(s.len() - t.len());
    assert forall|i: int| 0 <= i < a.len() implies is_white(#[trigger] a[i]) by {
        assert(a[i] == s[i]);
    }
    assert(s =~= a + t);
    a
}

proof fn space_at_the_end(s: Seq<char>) -> (b: Seq<char>)
    ensures
        blank(b),
        s == trim_end_of(s) + b,
{
    trim_end_facts(s);
    let t = trim_end_of(s);
    let b = s.skip(t.len() as int);
    assert forall|i: int| 0 <= i < b.len() implies is_white(#[trigger] b[i]) by {
        assert(b[i] == s[t.len() + i]);
    }
    assert(s =~= t + b);
    b
}

/// Trimming one end takes away the whitespace there, all of it, and nothing else.
pub proof fn trimming_one_end_cuts_only_space(s: Seq<char>)
    ensures
        exists|b: Seq<char>| blank(b) && s == #[trigger] (trim_end_of(s) + b),
        trim_end_of(s).len() > 0 ==> !is_white(trim_end_of(s).last()),
        exists|a: Seq<char>| blank(a) && s == #[trigger] (a + trim_start_of(s)),
        trim_start_of(s).len() > 0 ==> !is_white(trim_start_of(s)[0]),
{
    let a = space_at_the_start(s);
    let b = space_at_the_end(s);
    assert(s == a + trim_start_of(s));
    assert(s == trim_end_of(s) + b);
    trim_start_facts(s);
    trim_end_facts(s);
}

/// Trimming takes away whitespace at both ends, all of it, and nothing else.
pub proof fn trimming_cuts_only_space(s: Seq<char>)
    ensures
        exists|a: Seq<char>, b: Seq<char>|
            blank(a) && blank(b) && s == #[trigger] (a + trim_of(s) + b),
        trim_of(s).len() > 0 ==> !is_white(trim_of(s)[0]) && !is_white(trim_of(s).last()),
{
    let a = space_at_the_start(s);
    let t = trim_start_of(s);
    let b = space_at_the_end(t);
    let u = trim_of(s);
    assert(s =~= a + u + b);
    trim_start_facts(s);
    trim_end_facts(t);
    if u.len() > 0 {
        assert(u[0] == t[0]);
    }
}

/// Joining two lists joins what each of them joins to, with the separator between.
pub proof fn joined_lists(a: Seq<Seq<char>>, b: Seq<Seq<char>>, sep: Seq<char>)
    ensures
        a.len() > 0 && b.len() > 0 ==> join_of(a + b, sep) == join_of(a, sep) + sep + join_of(b, sep),
        a.len() == 0 ==> join_of(a + b, sep) == join_of(b, sep),
        b.len() == 0 ==> join_of(a + b, sep) == join_of(a, sep),
    decreases b.len(),
{
    if a.len() == 0 {
        assert(a + b =~= b);
    } else if b.len() == 0 {
        assert(a + b =~= a);
    } else {
        let d = b.drop_last();
        joined_lists(a, d, sep);
        assert((a + b).drop_last() =~= a + d);
        assert((a + b).last() == b.last());
        if d.len() == 0 {
            assert(a + d =~= a);
            assert(join_of(b, sep) == b[0]);
        } else {
            assert(join_of(a + b, sep) =~= join_of(a, sep) + sep + join_of(b, sep));
        }
    }
}

/// A list of one joins to that one, and an empty list to nothing.
pub proof fn joined_alone(x: Seq<char>, sep: Seq<char>)
    ensures
        join_of(seq![x], sep) == x,
        join_of(Seq::empty(), sep).len() == 0,
{
}

/// What is joined is all there.
pub proof fn joined_within(parts: Seq<Seq<char>>, sep: Seq<char>, i: int)
    requires
        0 <= i < parts.len(),
    ensures
        within(parts[i], join_of(parts, sep)),
{
    let a = parts.take(i);
    let b = parts.skip(i + 1);
    let x = seq![parts[i]];
    assert(parts =~= (a + x) + b);
    joined_lists(a, x, sep);
    joined_lists(a + x, b, sep);
    joined_alone(parts[i], sep);
    let head = if a.len() > 0 {
        join_of(a, sep) + sep
    } else {
        Seq::empty()
    };
    let tail = if b.len() > 0 {
        sep + join_of(b, sep)
    } else {
        Seq::empty()
    };
    between(head, parts[i], tail, join_of(parts, sep));
}

/// Splitting undoes joining: the pieces, with the separator between, are the text again, and none
/// of them holds the separator.
pub proof fn pieces_make_the_text(s: Seq<char>, sep: char)
    ensures
        join_of(split_of(s, sep), seq![sep]) == s,
        split_of(s, sep).len() > 0,
        forall|i: int| 0 <= i < split_of(s, sep).len() ==> !(#[trigger] split_of(s, sep)[i]).contains(
            sep,
        ),
    decreases s.len(),
{
    let p = split_of(s, sep);
    if s.len() == 0 {
        assert(join_of(p, seq![sep]) =~= s);
    } else {
        let d = s.drop_last();
        let q = split_of(d, sep);
        pieces_make_the_text(d, sep);
        if s.last() == sep {
            assert(p.drop_last() =~= q);
            assert(join_of(p, seq![sep]) =~= d + seq![sep]);
            assert(s =~= d + seq![sep]);
        } else {
            let head = q.drop_last();
            let last = q.last();
            assert(q =~= head + seq![last]);
            assert(p =~= head + seq![last.push(s.last())]);
            joined_lists(head, seq![last], seq![sep]);
            joined_lists(head, seq![last.push(s.last())], seq![sep]);
            joined_alone(last, seq![sep]);
            joined_alone(last.push(s.last()), seq![sep]);
            assert(join_of(p, seq![sep]) =~= d.push(s.last()));
            assert(d.push(s.last()) =~= s);
        }
        assert forall|i: int| 0 <= i < p.len() implies !(#[trigger] p[i]).contains(sep) by {
            if s.last() == sep {
                if i < q.len() {
                    assert(p[i] == q[i]);
                }
            } else if i < q.len() - 1 {
                assert(p[i] == q[i]);
            } else {
                let last = q[q.len() - 1];
                assert(!last.contains(sep));
                assert(p[i] =~= last.push(s.last()));
                if p[i].contains(sep) {
                    let k = choose|k: int| 0 <= k < p[i].len() && p[i][k] == sep;
                    assert(k < last.len());
                    assert(last[k] == sep);
                }
            }
        }
    }
}

/// The number that digits stand for, read from the left.
pub open spec fn number_in(d: Seq<char>, base: nat) -> nat
    decreases d.len(),
{
    if d.len() == 0 {
        0
    } else {
        let c = d.last();
        number_in(d.drop_last(), base) * base + (if '0' <= c <= '9' {
            (c as int - '0' as int) as nat
        } else {
            (c as int - 'a' as int + 10) as nat
        })
    }
}

/// A number reads back from its digits, decimal and hexadecimal, and has no zero before it.
pub proof fn numbers_read_back(n: nat, base: nat)
    requires
        base == 10 || base == 16,
    ensures
        number_in(digits(n, base), base) == n,
        digits(n, base).len() > 0,
        n > 0 ==> digits(n, base)[0] != '0',
        number_in(decimal_of(n), 10) == n,
    decreases n, base,
{
    if base == 16 {
        numbers_read_back(n, 10);
    }
    let d = digits(n, base);
    if n < base {
        assert(d.drop_last() =~= Seq::empty());
        assert(number_in(d.drop_last(), base) == 0);
    } else {
        assert(n / base < n) by (nonlinear_arith)
            requires
                n >= base,
                base >= 2,
        ;
        assert(n / base > 0) by (nonlinear_arith)
            requires
                n >= base,
                base >= 2,
        ;
        numbers_read_back(n / base, base);
        assert(d.drop_last() =~= digits(n / base, base));
        assert(d[0] == digits(n / base, base)[0]);
        assert(n == (n / base) * base + n % base) by (nonlinear_arith)
            requires
                base >= 2,
        ;
    }
}

/// A text of two parts is blank where both are.
pub proof fn blank_where_both_are(a: Seq<char>, b: Seq<char>)
    ensures
        blank(a + b) <==> blank(a) && blank(b),
{
    let t = a + b;
    if blank(t) {
        assert forall|i: int| 0 <= i < a.len() implies is_white(#[trigger] a[i]) by {
            assert(t[i] == a[i]);
        }
        assert forall|i: int| 0 <= i < b.len() implies is_white(#[trigger] b[i]) by {
            assert(t[a.len() + i] == b[i]);
        }
    }
}

/// A number and its sign are written: its digits, and a minus before them where it is negative.
pub proof fn signs_are_written(n: nat)
    ensures
        signed_of(n as int) == decimal_of(n),
        n > 0 ==> signed_of(-(n as int)) == seq!['-'] + decimal_of(n),
{
    reveal_strlit("-");
    assert("-"@ =~= seq!['-']);
}

/// A search finds what is there, at the first place where it stands, and nothing that is not.
pub proof fn a_search_finds_what_is_there(h: Seq<char>, n: Seq<char>)
    ensures
        find_of(h, n) is Some <==> within(n, h),
        find_of(h, n) matches Some(i) ==> 0 <= i && i + n.len() <= h.len() && h.subrange(
            i,
            i + n.len(),
        ) == n && forall|j: int|
            0 <= j < i && j + n.len() <= h.len() ==> #[trigger] h.subrange(j, j + n.len()) != n,
{
    first_from_is_first(h, n, 0);
    match find_of(h, n) {
        Some(i) => {
            between(h.take(i), n, h.skip(i + n.len()), h);
            assert forall|j: int| 0 <= j < i && j + n.len() <= h.len() implies #[trigger] h.subrange(
                j,
                j + n.len(),
            ) != n by {
                assert(!occurs_at(h, n, j));
            }
        },
        None => {
            if within(n, h) {
                let (a, b) = choose|a: Seq<char>, b: Seq<char>| h == #[trigger] (a + n + b);
                assert(h.subrange(a.len() as int, a.len() as int + n.len()) =~= n);
                assert(occurs_at(h, n, a.len() as int));
            }
        },
    }
}

/// Small letters are what capitals are made, and all else stays.
pub proof fn capitals_are_made_small(c: char, s: Seq<char>, i: int)
    requires
        0 <= i < s.len(),
    ensures
        'A' <= c <= 'Z' ==> lower_char(c) as u32 == c as u32 + 32 && 'a' <= lower_char(c) <= 'z',
        !('A' <= c <= 'Z') ==> lower_char(c) == c,
        lower_of(s).len() == s.len(),
        lower_of(s)[i] == lower_char(s[i]),
        lower_of(lower_of(s)) == lower_of(s),
{
    assert(lower_of(lower_of(s)) =~= lower_of(s));
}

/// Texts stand by their first difference: the one with the smaller character there comes first, and
/// a text comes before those that it begins.
pub proof fn the_first_difference_decides(p: Seq<char>, a: Seq<char>, b: Seq<char>)
    ensures
        precedes(p + a, p + b) == precedes(a, b),
        a.len() > 0 && b.len() > 0 && a[0] < b[0] ==> precedes(a, b) && !precedes(b, a),
        b.len() > 0 ==> precedes(p, p + b),
        !precedes(p, p),
    decreases p.len(),
{
    if p.len() > 0 {
        let t = p.skip(1);
        the_first_difference_decides(t, a, b);
        assert((p + a).skip(1) =~= t + a);
        assert((p + b).skip(1) =~= t + b);
        assert((p + a)[0] == p[0] && (p + b)[0] == p[0]);
    } else {
        assert(p + a =~= a);
        assert(p + b =~= b);
    }
}

} // verus!
