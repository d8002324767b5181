//! Character-level text operations used by the rescue parsers: substring
//! search, splitting, trimming and string building, each with a specification
//! over `Seq<char>`.
use vstd::prelude::*;
use vstd::std_specs::iter::IteratorSpec;

verus! {

// ── Specifications ──────────────────────────────────────────────────────────

/// Unicode `White_Space`, the set `char::is_whitespace` (and so `str::trim`)
/// uses.
pub open spec fn is_ws(c: char) -> bool {
    let u = c as u32;
    ||| (0x09 <= u && u <= 0x0D)
    ||| u == 0x20
    ||| u == 0x85
    ||| u == 0xA0
    ||| u == 0x1680
    ||| (0x2000 <= u && u <= 0x200A)
    ||| u == 0x2028
    ||| u == 0x2029
    ||| u == 0x202F
    ||| u == 0x205F
    ||| u == 0x3000
}

/// `pat` occurs in `s` at position `i`.
pub open spec fn matches_at(s: Seq<char>, i: int, pat: Seq<char>) -> bool {
    0 <= i && i + pat.len() <= s.len() && s.subrange(i, i + pat.len()) == pat
}

/// The first position at or after `i` where `pat` occurs in `s`.
pub open spec fn find_from(s: Seq<char>, pat: Seq<char>, i: nat) -> Option<nat>
    decreases s.len() + 1 - i,
{
    if i + pat.len() > s.len() {
        None
    } else if s.subrange(i as int, (i + pat.len()) as int) == pat {
        Some(i)
    } else {
        find_from(s, pat, i + 1)
    }
}

/// The first position where `pat` occurs in `s` (as `str::find`, counted in
/// characters).
pub open spec fn find(s: Seq<char>, pat: Seq<char>) -> Option<nat> {
    find_from(s, pat, 0)
}

/// `s` up to the first occurrence of `pat`, or all of `s`.
pub open spec fn before(s: Seq<char>, pat: Seq<char>) -> Seq<char> {
    match find(s, pat) {
        Some(i) => s.take(i as int),
        None => s,
    }
}

/// The pieces of `s` between the occurrences of a non-empty `pat`, as
/// `str::split` yields them.
pub open spec fn split(s: Seq<char>, pat: Seq<char>) -> Seq<Seq<char>>
    decreases s.len(),
{
    if pat.len() == 0 {
        seq![s]
    } else {
        match find(s, pat) {
            Some(i) => if i + pat.len() <= s.len() {
                seq![s.take(i as int)] + split(s.skip((i + pat.len()) as int), pat)
            } else {
                seq![s]
            },
            None => seq![s],
        }
    }
}

/// `s` without its leading whitespace.
pub open spec fn trim_start(s: Seq<char>) -> Seq<char>
    decreases s.len(),
{
    if s.len() > 0 && is_ws(s[0]) {
        trim_start(s.skip(1))
    } else {
        s
    }
}

/// `s` without its trailing whitespace.
pub open spec fn trim_end(s: Seq<char>) -> Seq<char>
    decreases s.len(),
{
    if s.len() > 0 && is_ws(s.last()) {
        trim_end(s.drop_last())
    } else {
        s
    }
}

/// `s` without leading or trailing whitespace (as `str::trim`).
pub open spec fn trim(s: Seq<char>) -> Seq<char> {
    trim_end(trim_start(s))
}

/// Some character of `s` is whitespace.
pub open spec fn has_ws(s: Seq<char>) -> bool {
    exists|i: int| 0 <= i < s.len() && is_ws(#[trigger] s[i])
}

/// The decimal digits of `n`, as `Display` writes an unsigned integer.
pub open spec fn decimal(n: nat) -> Seq<char>
    decreases n,
{
    if n < 10 {
        seq![digit_char(n)]
    } else {
        decimal(n / 10).push(digit_char(n % 10))
    }
}

pub open spec fn digit_char(d: nat) -> char {
    if d == 0 { '0' }
    else if d == 1 { '1' }
    else if d == 2 { '2' }
    else if d == 3 { '3' }
    else if d == 4 { '4' }
    else if d == 5 { '5' }
    else if d == 6 { '6' }
    else if d == 7 { '7' }
    else if d == 8 { '8' }
    else { '9' }
}

// ── Lemmas ──────────────────────────────────────────────────────────────────

/// What `find_from` returns is a match, at or after `i`, with no match before it.
pub proof fn lemma_find_from(s: Seq<char>, pat: Seq<char>, i: nat)
    ensures
        match find_from(s, pat, i) {
            Some(r) => i <= r && r + pat.len() <= s.len() && s.subrange(r as int, (r + pat.len()) as int) == pat
                && forall|j: int| i <= j < r ==> !matches_at(s, j, pat),
            None => forall|j: int| i <= j ==> !matches_at(s, j, pat),
        },
    decreases s.len() + 1 - i,
{
    if i + pat.len() > s.len() {
    } else if s.subrange(i as int, (i + pat.len()) as int) == pat {
    } else {
        lemma_find_from(s, pat, i + 1);
    }
}

pub proof fn lemma_find(s: Seq<char>, pat: Seq<char>)
    ensures
        match find(s, pat) {
            Some(r) => r + pat.len() <= s.len() && s.subrange(r as int, (r + pat.len()) as int) == pat
                && forall|j: int| 0 <= j < r ==> !matches_at(s, j, pat),
            None => forall|j: int| 0 <= j ==> !matches_at(s, j, pat),
        },
{
    lemma_find_from(s, pat, 0);
}

/// `pat` occurs nowhere in `s`.
pub open spec fn free_of(s: Seq<char>, pat: Seq<char>) -> bool {
    forall|j: int| !matches_at(s, j, pat)
}

/// `pat` starts no later than its first character: none of its other
/// characters equals the first, so no occurrence can straddle the start of
/// another.
pub open spec fn lead_unique(pat: Seq<char>) -> bool {
    pat.len() > 0 && forall|k: int| 0 < k < pat.len() ==> #[trigger] pat[k] != pat[0]
}

/// A pattern that occurs nowhere is not found.
pub proof fn lemma_find_free(s: Seq<char>, pat: Seq<char>)
    requires
        free_of(s, pat),
    ensures
        find(s, pat) is None,
{
    lemma_find(s, pat);
    if let Some(r) = find(s, pat) {
        assert(matches_at(s, r as int, pat));
    }
}

/// After a prefix `a` free of `pat`, a `pat` that opens `b` is the first
/// occurrence in `a + b`.
pub proof fn lemma_find_after_free(a: Seq<char>, b: Seq<char>, pat: Seq<char>)
    requires
        lead_unique(pat),
        free_of(a, pat),
        pat.len() <= b.len(),
        b.take(pat.len() as int) == pat,
    ensures
        find(a + b, pat) == Some(a.len()),
{
    let s = a + b;
    let n = pat.len() as int;
    assert(s.subrange(a.len() as int, a.len() + n) =~= b.take(n));
    assert(matches_at(s, a.len() as int, pat));
    assert forall|j: int| 0 <= j < a.len() implies !matches_at(s, j, pat) by {
        if matches_at(s, j, pat) {
            if j + n <= a.len() {
                assert(a.subrange(j, j + n) =~= s.subrange(j, j + n));
                assert(matches_at(a, j, pat));
            } else {
                let k = a.len() - j;
                assert(s.subrange(j, j + n)[k] == s[a.len() as int]);
                assert(s[a.len() as int] == b[0]);
                assert(b.take(n)[0] == b[0]);
                assert(pat[k] != pat[0]);
            }
        }
    }
    lemma_find(s, pat);
    match find(s, pat) {
        Some(r) => {
            if r > a.len() {
                assert(!matches_at(s, a.len() as int, pat));
            }
            if r < a.len() {
                assert(matches_at(s, r as int, pat));
            }
        },
        None => {
            assert(!matches_at(s, a.len() as int, pat));
        },
    }
}

/// Splitting on a pattern that occurs nowhere gives the whole text.
pub proof fn lemma_split_free(a: Seq<char>, pat: Seq<char>)
    requires
        pat.len() > 0,
        free_of(a, pat),
    ensures
        split(a, pat) == seq![a],
{
    lemma_find_free(a, pat);
}

/// Splitting `a pat b`, with `a` free of `pat`, gives `a` and then the pieces
/// of `b`.
pub proof fn lemma_split_after_free(a: Seq<char>, b: Seq<char>, pat: Seq<char>)
    requires
        lead_unique(pat),
        free_of(a, pat),
    ensures
        split(a + (pat + b), pat) == seq![a] + split(b, pat),
{
    let s = a + (pat + b);
    assert((pat + b).take(pat.len() as int) =~= pat);
    lemma_find_after_free(a, pat + b, pat);
    assert(s.take(a.len() as int) =~= a);
    assert(s.skip((a.len() + pat.len()) as int) =~= b);
}

/// `trim_start` drops a prefix and leaves no leading whitespace.
pub proof fn lemma_trim_start(s: Seq<char>)
    ensures
        trim_start(s).len() <= s.len(),
        trim_start(s) == s.skip(s.len() - trim_start(s).len()),
        trim_start(s).len() > 0 ==> !is_ws(trim_start(s)[0]),
    decreases s.len(),
{
    if s.len() > 0 && is_ws(s[0]) {
        lemma_trim_start(s.skip(1));
        assert(s.skip(1).skip(s.skip(1).len() - trim_start(s.skip(1)).len()) =~= s.skip(
            s.len() - trim_start(s).len(),
        ));
    } else {
        assert(s.skip(0) =~= s);
    }
}

/// `trim_end` keeps a prefix and leaves no trailing whitespace.
pub proof fn lemma_trim_end(s: Seq<char>)
    ensures
        trim_end(s).len() <= s.len(),
        trim_end(s) == s.take(trim_end(s).len() as int),
        trim_end(s).len() > 0 ==> !is_ws(trim_end(s).last()),
    decreases s.len(),
{
    if s.len() > 0 && is_ws(s.last()) {
        lemma_trim_end(s.drop_last());
        assert(s.drop_last().take(trim_end(s).len() as int) =~= s.take(trim_end(s).len() as int));
    } else {
        assert(s.take(s.len() as int) =~= s);
    }
}

/// Trimming a trimmed text changes nothing.
pub proof fn lemma_trim_idempotent(s: Seq<char>)
    ensures
        trim(trim(s)) == trim(s),
{
    let a = trim_start(s);
    lemma_trim_start(s);
    lemma_trim_end(a);
    let t = trim_end(a);
    if t.len() > 0 {
        assert(t[0] == a[0]);
        assert(trim_start(t) == t);
        assert(trim_end(t) == t);
    } else {
        assert(trim_start(t) == t);
        assert(trim_end(t) == t);
    }
}

// ── Executable helpers ──────────────────────────────────────────────────────

/// `char::is_whitespace`.
pub fn is_whitespace(c: char) -> (r: bool)
    ensures
        r == is_ws(c),
{
    let u = c as u32;
    (0x09 <= u && u <= 0x0D) || u == 0x20 || u == 0x85 || u == 0xA0 || u == 0x1680 || (0x2000 <= u
        && u <= 0x200A) || u == 0x2028 || u == 0x2029 || u == 0x202F || u == 0x205F || u == 0x3000
}

/// The characters of `s`.
pub fn to_chars(s: &str) -> (r: Vec<char>)
    ensures
        r@ == s@,
{
    broadcast use vstd::string::group_string_axioms;

    let mut it = s.chars();
    let mut v: Vec<char> = Vec::new();
    assert(it.remaining() == s@);
    loop
        invariant
            v@ + it.remaining() == s@,
            it.obeys_prophetic_iter_laws(),
            it.decrease() is Some,
        decreases it.decrease()->0,
    {
        let ghost before = it.remaining();
        match it.next() {
            Some(c) => {
                let ghost vb = v@;
                v.push(c);
                assert(v@ + it.remaining() =~= vb + before);
            },
            None => {
                assert(v@ + it.remaining() =~= v@);
                return v;
            },
        }
    }
}

/// `String::push`.
#[verifier::external_body]
fn push_char(s: &mut String, c: char)
    ensures
        final(s)@ == old(s)@.push(c),
{
    s.push(c);
}

/// The string made of the characters `cs`.
pub fn from_chars(cs: &[char]) -> (r: String)
    ensures
        r@ == cs@,
{
    let mut s = String::new();
    let mut i: usize = 0;
    while i < cs.len()
        invariant
            i <= cs.len(),
            s@ == cs@.take(i as int),
        decreases cs.len() - i,
    {
        push_char(&mut s, cs[i]);
        i = i + 1;
        assert(s@ =~= cs@.take(i as int));
    }
    assert(cs@.take(cs@.len() as int) =~= cs@);
    s
}

/// `a` followed by `b`.
pub fn concat(a: &[char], b: &[char]) -> (r: Vec<char>)
    ensures
        r@ == a@ + b@,
{
    let mut v: Vec<char> = Vec::new();
    let mut i: usize = 0;
    while i < a.len()
        invariant
            i <= a.len(),
            v@ == a@.take(i as int),
        decreases a.len() - i,
    {
        v.push(a[i]);
        i = i + 1;
        assert(v@ =~= a@.take(i as int));
    }
    let mut j: usize = 0;
    while j < b.len()
        invariant
            j <= b.len(),
            v@ == a@ + b@.take(j as int),
        decreases b.len() - j,
    {
        v.push(b[j]);
        j = j + 1;
        assert(v@ =~= a@ + b@.take(j as int));
    }
    assert(b@.take(b@.len() as int) =~= b@);
    v
}

/// The characters of `s` from `lo` up to `hi`.
pub fn slice_of(s: &[char], lo: usize, hi: usize) -> (r: Vec<char>)
    requires
        lo <= hi <= s.len(),
    ensures
        r@ == s@.subrange(lo as int, hi as int),
{
    let mut v: Vec<char> = Vec::new();
    let mut i: usize = lo;
    while i < hi
        invariant
            lo <= i <= hi <= s.len(),
            v@ == s@.subrange(lo as int, i as int),
        decreases hi - i,
    {
        v.push(s[i]);
        i = i + 1;
        assert(v@ =~= s@.subrange(lo as int, i as int));
    }
    v
}

/// Whether `pat` occurs in `s` at position `i`.
fn matches_here(s: &[char], i: usize, pat: &[char]) -> (r: bool)
    requires
        i + pat.len() <= s.len(),
    ensures
        r == (s@.subrange(i as int, i + pat.len()) == pat@),
{
    let mut k: usize = 0;
    while k < pat.len()
        invariant
            i + pat.len() <= s.len(),
            k <= pat.len(),
            forall|j: int| 0 <= j < k ==> s@[i + j] == pat@[j],
        decreases pat.len() - k,
    {
        if s[i + k] != pat[k] {
            assert(s@.subrange(i as int, i + pat.len())[k as int] != pat@[k as int]);
            return false;
        }
        k = k + 1;
    }
    assert(s@.subrange(i as int, i + pat.len()) =~= pat@);
    true
}

/// `str::find`: the first position where `pat` occurs in `s`.
pub fn find_in(s: &[char], pat: &[char]) -> (r: Option<usize>)
    ensures
        match r {
            Some(i) => find(s@, pat@) == Some(i as nat),
            None => find(s@, pat@) is None,
        },
{
    if pat.len() > s.len() {
        return None;
    }
    let last = s.len() - pat.len();
    let mut i: usize = 0;
    while i <= last
        invariant
            last + pat.len() == s.len(),
            i <= last + 1,
            find_from(s@, pat@, 0) == find_from(s@, pat@, i as nat),
        decreases last + 1 - i,
    {
        if matches_here(s, i, pat) {
            return Some(i);
        }
        if i == last {
            assert(find_from(s@, pat@, (i + 1) as nat) is None);
            return None;
        }
        i = i + 1;
    }
    None
}

/// The first position of `c` in `s`.
pub fn find_char(s: &[char], c: char) -> (r: Option<usize>)
    ensures
        match r {
            Some(i) => find(s@, seq![c]) == Some(i as nat),
            None => find(s@, seq![c]) is None,
        },
{
    let pat: Vec<char> = vec![c];
    assert(pat@ =~= seq![c]);
    find_in(s, pat.as_slice())
}

/// `str::trim_start`.
pub fn trim_start_chars(s: &[char]) -> (r: Vec<char>)
    ensures
        r@ == trim_start(s@),
{
    let mut i: usize = 0;
    assert(s@.skip(0) =~= s@);
    while i < s.len() && is_whitespace(s[i])
        invariant
            i <= s.len(),
            trim_start(s@) == trim_start(s@.skip(i as int)),
        decreases s.len() - i,
    {
        assert(s@.skip(i as int).skip(1) =~= s@.skip(i + 1));
        i = i + 1;
    }
    let r = slice_of(s, i, s.len());
    assert(r@ =~= s@.skip(i as int));
    r
}

/// `str::trim_end`.
pub fn trim_end_chars(s: &[char]) -> (r: Vec<char>)
    ensures
        r@ == trim_end(s@),
{
    let mut j: usize = s.len();
    assert(s@.take(s.len() as int) =~= s@);
    while j > 0 && is_whitespace(s[j - 1])
        invariant
            j <= s.len(),
            trim_end(s@) == trim_end(s@.take(j as int)),
        decreases j,
    {
        assert(s@.take(j as int).drop_last() =~= s@.take(j - 1));
        j = j - 1;
    }
    let r = slice_of(s, 0, j);
    assert(r@ =~= s@.take(j as int));
    r
}

/// `str::trim`.
pub fn trim_chars(s: &[char]) -> (r: Vec<char>)
    ensures
        r@ == trim(s@),
{
    let a = trim_start_chars(s);
    trim_end_chars(a.as_slice())
}

/// Whether some character of `s` is whitespace.
pub fn contains_whitespace(s: &[char]) -> (r: bool)
    ensures
        r == has_ws(s@),
{
    let mut i: usize = 0;
    while i < s.len()
        invariant
            i <= s.len(),
            forall|j: int| 0 <= j < i ==> !is_ws(s@[j]),
        decreases s.len() - i,
    {
        if is_whitespace(s[i]) {
            return true;
        }
        i = i + 1;
    }
    false
}

/// `s` up to the first occurrence of `pat`, or all of `s`.
pub fn before_chars(s: &[char], pat: &[char]) -> (r: Vec<char>)
    ensures
        r@ == before(s@, pat@),
{
    match find_in(s, pat) {
        Some(i) => {
            proof {
                lemma_find(s@, pat@);
            }
            slice_of(s, 0, i)
        },
        None => slice_of(s, 0, s.len()),
    }
}

pub open spec fn views(v: Seq<Vec<char>>) -> Seq<Seq<char>> {
    v.map_values(|x: Vec<char>| x@)
}

/// `str::split` on a non-empty pattern.
pub fn split_chars(s: &[char], pat: &[char]) -> (r: Vec<Vec<char>>)
    requires
        pat.len() > 0,
    ensures
        views(r@) == split(s@, pat@),
{
    let mut parts: Vec<Vec<char>> = Vec::new();
    let mut rest: Vec<char> = slice_of(s, 0, s.len());
    assert(rest@ =~= s@);
    loop
        invariant
            pat.len() > 0,
            split(s@, pat@) == views(parts@) + split(rest@, pat@),
        decreases rest.len(),
    {
        match find_in(rest.as_slice(), pat) {
            Some(i) => {
                proof {
                    lemma_find(rest@, pat@);
                }
                let piece = slice_of(rest.as_slice(), 0, i);
                let next = slice_of(rest.as_slice(), i + pat.len(), rest.len());
                assert(next@ =~= rest@.skip((i + pat.len()) as int));
                let ghost old_parts = parts@;
                parts.push(piece);
                assert(views(parts@) =~= views(old_parts) + seq![piece@]);
                assert(split(rest@, pat@) == seq![rest@.take(i as int)] + split(next@, pat@));
                assert(piece@ =~= rest@.take(i as int));
                assert(views(parts@) + split(next@, pat@) =~= views(old_parts) + split(rest@, pat@));
                rest = next;
            },
            None => {
                let ghost old_parts = parts@;
                let ghost last = rest@;
                parts.push(rest);
                assert(views(parts@) =~= views(old_parts) + seq![last]);
                return parts;
            },
        }
    }
}

/// The decimal digits of `n`.
pub fn decimal_string(n: usize) -> (r: Vec<char>)
    ensures
        r@ == decimal(n as nat),
    decreases n,
{
    let d = (n % 10) as u32;
    let c = if d == 0 { '0' }
        else if d == 1 { '1' }
        else if d == 2 { '2' }
        else if d == 3 { '3' }
        else if d == 4 { '4' }
        else if d == 5 { '5' }
        else if d == 6 { '6' }
        else if d == 7 { '7' }
        else if d == 8 { '8' }
        else { '9' };
    if n < 10 {
        let v: Vec<char> = vec![c];
        assert(v@ =~= seq![digit_char(n as nat)]);
        v
    } else {
        let mut v = decimal_string(n / 10);
        v.push(c);
        v
    }
}

/// Whether `a` and `b` hold the same characters.
pub fn chars_eq(a: &[char], b: &[char]) -> (r: bool)
    ensures
        r == (a@ == b@),
{
    if a.len() != b.len() {
        return false;
    }
    let mut i: usize = 0;
    while i < a.len()
        invariant
            a.len() == b.len(),
            i <= a.len(),
            forall|j: int| 0 <= j < i ==> a@[j] == b@[j],
        decreases a.len() - i,
    {
        if a[i] != b[i] {
            return false;
        }
        i = i + 1;
    }
    assert(a@ =~= b@);
    true
}

/// Whether the strings `a` and `b` are equal.
pub fn str_eq(a: &str, b: &str) -> (r: bool)
    ensures
        r == (a@ == b@),
{
    let x = to_chars(a);
    let y = to_chars(b);
    chars_eq(x.as_slice(), y.as_slice())
}

/// `char::is_alphanumeric`: the character is Unicode `Alphabetic` or
/// `Numeric`.
pub uninterp spec fn alphanumeric(c: char) -> bool;

/// `char::is_alphanumeric`, a function of the character alone. std documents
/// it as Unicode `Alphabetic` or a number (general category `Nd`, `Nl`,
/// `No`); the `White_Space` characters (`is_ws`) are control characters and
/// separators (categories `Cc`, `Zs`, `Zl`, `Zp`), none of them alphabetic or
/// numeric, so a whitespace character is never accepted. Which other
/// characters are accepted is left to the name.
#[verifier::external_body]
pub(crate) fn is_alphanumeric(c: char) -> (r: bool)
    ensures
        r == alphanumeric(c),
        is_ws(c) ==> !r,
{
    c.is_alphanumeric()
}

/// `char::is_ascii_alphanumeric`.
pub open spec fn ascii_alnum(c: char) -> bool {
    let u = c as u32;
    (0x30 <= u && u <= 0x39) || (0x41 <= u && u <= 0x5A) || (0x61 <= u && u <= 0x7A)
}

/// `char::is_ascii_alphanumeric`.
pub fn is_ascii_alphanumeric(c: char) -> (r: bool)
    ensures
        r == ascii_alnum(c),
{
    let u = c as u32;
    (0x30 <= u && u <= 0x39) || (0x41 <= u && u <= 0x5A) || (0x61 <= u && u <= 0x7A)
}

} // verus!
