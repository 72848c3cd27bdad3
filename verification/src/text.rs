//! Character-level text primitives shared by the dump parsers.
//!
//! Text is handled as sequences of `char`s: a `&str` is viewed as `Seq<char>`,
//! and every delimiter the parsers look for is ASCII.
use vstd::prelude::*;
use vstd::string::StringExecFns;
use vstd::utf8::*;

verus! {

broadcast use vstd::string::group_string_axioms;

/// `char::is_whitespace`: the Unicode `White_Space` property.
pub open spec fn is_ws(c: char) -> bool {
    let u = c as u32;
    ||| 0x09 <= u <= 0x0d
    ||| u == 0x20
    ||| u == 0x85
    ||| u == 0xa0
    ||| u == 0x1680
    ||| 0x2000 <= u <= 0x200a
    ||| u == 0x2028
    ||| u == 0x2029
    ||| u == 0x202f
    ||| u == 0x205f
    ||| u == 0x3000
}

/// `u8::is_ascii_whitespace` on the character's code point: space, tab, LF, FF, CR.
pub open spec fn is_ascii_ws(c: char) -> bool {
    c == ' ' || c == '\t' || c == '\n' || c == '\x0C' || c == '\r'
}

/// `char::to_ascii_uppercase`.
pub open spec fn upper_char(c: char) -> char {
    if 'a' <= c && c <= 'z' {
        ((c as u32) - 32) as char
    } else {
        c
    }
}

/// `str::to_ascii_uppercase`, character by character.
pub open spec fn ascii_upper(s: Seq<char>) -> Seq<char> {
    s.map_values(|c: char| upper_char(c))
}

/// `str::trim_start`.
pub open spec fn trim_start(s: Seq<char>) -> Seq<char>
    decreases s.len(),
{
    if s.len() > 0 && is_ws(s[0]) {
        trim_start(s.drop_first())
    } else {
        s
    }
}

/// `str::trim_end`.
pub open spec fn trim_end(s: Seq<char>) -> Seq<char>
    decreases s.len(),
{
    if s.len() > 0 && is_ws(s.last()) {
        trim_end(s.drop_last())
    } else {
        s
    }
}

/// `str::trim`.
pub open spec fn trim(s: Seq<char>) -> Seq<char> {
    trim_end(trim_start(s))
}

/// `s` begins with `p`.
pub open spec fn starts_with(s: Seq<char>, p: Seq<char>) -> bool {
    p.len() <= s.len() && s.take(p.len() as int) == p
}

/// Index of the first occurrence of `c` in `s`.
pub open spec fn find_char(s: Seq<char>, c: char) -> Option<int>
    decreases s.len(),
{
    if s.len() == 0 {
        None
    } else if s[0] == c {
        Some(0)
    } else {
        match find_char(s.drop_first(), c) {
            Some(i) => Some(i + 1),
            None => None,
        }
    }
}

/// Index of the first occurrence of the (non-empty) pattern `p` in `s`.
pub open spec fn find_seq(s: Seq<char>, p: Seq<char>) -> Option<int>
    decreases s.len(),
{
    if s.len() < p.len() {
        None
    } else if starts_with(s, p) {
        Some(0)
    } else if s.len() == 0 {
        None
    } else {
        match find_seq(s.drop_first(), p) {
            Some(i) => Some(i + 1),
            None => None,
        }
    }
}

/// Index of the first character at or after `i` that is not whitespace.
pub open spec fn ws_skip(s: Seq<char>, i: int) -> int
    decreases s.len() - i,
{
    if 0 <= i < s.len() && is_ws(s[i]) {
        ws_skip(s, i + 1)
    } else {
        i
    }
}

/// A name for what `String::from_utf8_lossy` returns on the given bytes.
pub uninterp spec fn spec_utf8_lossy(bytes: Seq<u8>) -> Seq<char>;

// ---------------------------------------------------------------------------
// Lemmas
// ---------------------------------------------------------------------------

pub proof fn lemma_trim_start_len(s: Seq<char>)
    ensures
        trim_start(s).len() <= s.len(),
        s.skip(s.len() - trim_start(s).len()) == trim_start(s),
        forall|i: int| 0 <= i < s.len() - trim_start(s).len() ==> is_ws(#[trigger] s[i]),
        trim_start(s).len() > 0 ==> !is_ws(trim_start(s)[0]),
    decreases s.len(),
{
    if s.len() > 0 && is_ws(s[0]) {
        lemma_trim_start_len(s.drop_first());
        let t = trim_start(s.drop_first());
        assert(s.drop_first().skip(s.drop_first().len() - t.len()) =~= s.skip(s.len() - t.len()));
        assert forall|i: int| 0 <= i < s.len() - trim_start(s).len() implies is_ws(#[trigger] s[i]) by {
            if i > 0 {
                assert(s[i] == s.drop_first()[i - 1]);
            }
        }
    } else {
        assert(s.skip(0) =~= s);
    }
}

pub proof fn lemma_trim_end_len(s: Seq<char>)
    ensures
        trim_end(s).len() <= s.len(),
        s.take(trim_end(s).len() as int) == trim_end(s),
        forall|i: int| trim_end(s).len() <= i < s.len() ==> is_ws(#[trigger] s[i]),
        trim_end(s).len() > 0 ==> !is_ws(trim_end(s).last()),
    decreases s.len(),
{
    if s.len() > 0 && is_ws(s.last()) {
        lemma_trim_end_len(s.drop_last());
        let t = trim_end(s.drop_last());
        assert(s.drop_last().take(t.len() as int) =~= s.take(t.len() as int));
        assert forall|i: int| trim_end(s).len() <= i < s.len() implies is_ws(#[trigger] s[i]) by {
            if i < s.len() - 1 {
                assert(s[i] == s.drop_last()[i]);
            }
        }
    } else {
        assert(s.take(s.len() as int) =~= s);
    }
}

/// `trim_start` of a sequence whose first characters are whitespace skips them.
pub proof fn lemma_trim_start_skip(s: Seq<char>, k: int)
    requires
        0 <= k <= s.len(),
        forall|i: int| 0 <= i < k ==> is_ws(#[trigger] s[i]),
    ensures
        trim_start(s) == trim_start(s.skip(k)),
    decreases k,
{
    if k > 0 {
        assert(s.skip(1) =~= s.drop_first());
        lemma_trim_start_skip(s.drop_first(), k - 1);
        assert(s.drop_first().skip(k - 1) =~= s.skip(k));
    } else {
        assert(s.skip(0) =~= s);
    }
}

/// `trim_end` of a sequence whose last characters are whitespace drops them.
pub proof fn lemma_trim_end_take(s: Seq<char>, k: int)
    requires
        0 <= k <= s.len(),
        forall|i: int| k <= i < s.len() ==> is_ws(#[trigger] s[i]),
    ensures
        trim_end(s) == trim_end(s.take(k)),
    decreases s.len() - k,
{
    if k < s.len() {
        assert(s.take(s.len() - 1) =~= s.drop_last());
        lemma_trim_end_take(s.drop_last(), k);
        assert(s.drop_last().take(k) =~= s.take(k));
    } else {
        assert(s.take(k) =~= s);
    }
}

pub proof fn lemma_ws_skip(s: Seq<char>, i: int)
    requires
        0 <= i <= s.len(),
    ensures
        i <= ws_skip(s, i) <= s.len(),
        s.skip(ws_skip(s, i)) == trim_start(s.skip(i)),
        forall|k: int| i <= k < ws_skip(s, i) ==> is_ws(#[trigger] s[k]),
        ws_skip(s, i) < s.len() ==> !is_ws(s[ws_skip(s, i)]),
    decreases s.len() - i,
{
    if i < s.len() && is_ws(s[i]) {
        lemma_ws_skip(s, i + 1);
        assert(s.skip(i).drop_first() =~= s.skip(i + 1));
    } else if i < s.len() {
        assert(s.skip(i)[0] == s[i]);
    } else {
        assert(s.skip(i).len() == 0);
    }
}

pub proof fn lemma_find_char(s: Seq<char>, c: char)
    ensures
        find_char(s, c) matches Some(i) ==> 0 <= i < s.len() && s[i] == c && forall|j: int|
            0 <= j < i ==> #[trigger] s[j] != c,
        find_char(s, c) is None ==> forall|j: int| 0 <= j < s.len() ==> #[trigger] s[j] != c,
    decreases s.len(),
{
    if s.len() > 0 && s[0] != c {
        lemma_find_char(s.drop_first(), c);
        assert forall|j: int| 0 < j < s.len() implies #[trigger] s[j] == s.drop_first()[j - 1] by {}
    }
}

pub proof fn lemma_find_seq(s: Seq<char>, p: Seq<char>)
    ensures
        find_seq(s, p) matches Some(i) ==> 0 <= i && i + p.len() <= s.len() && starts_with(
            s.skip(i),
            p,
        ) && forall|j: int| 0 <= j < i ==> !#[trigger] starts_with(s.skip(j), p),
        find_seq(s, p) is None ==> forall|j: int|
            0 <= j && j + p.len() <= s.len() ==> !#[trigger] starts_with(s.skip(j), p),
    decreases s.len(),
{
    if s.len() >= p.len() {
        if starts_with(s, p) {
            assert(s.skip(0) =~= s);
        } else if s.len() > 0 {
            lemma_find_seq(s.drop_first(), p);
            assert forall|j: int| 0 < j && j + p.len() <= s.len() implies #[trigger] s.skip(j)
                == s.drop_first().skip(j - 1) by {
                assert(s.skip(j) =~= s.drop_first().skip(j - 1));
            }
            assert(s.skip(0) =~= s);
        }
    }
}

// ---------------------------------------------------------------------------
// Executable primitives
// ---------------------------------------------------------------------------

/// `char::is_whitespace`.
pub fn char_is_whitespace(c: char) -> (r: bool)
    ensures
        r == is_ws(c),
{
    let u = c as u32;
    (0x09 <= u && u <= 0x0d) || u == 0x20 || u == 0x85 || u == 0xa0 || u == 0x1680 || (0x2000
        <= u && u <= 0x200a) || u == 0x2028 || u == 0x2029 || u == 0x202f || u == 0x205f || u
        == 0x3000
}

/// `u8::is_ascii_whitespace` applied to a character.
pub fn char_is_ascii_whitespace(c: char) -> (r: bool)
    ensures
        r == is_ascii_ws(c),
{
    c == ' ' || c == '\t' || c == '\n' || c == '\x0C' || c == '\r'
}

/// `char::to_ascii_uppercase`.
pub fn char_upper(c: char) -> (r: char)
    ensures
        r == upper_char(c),
{
    if 'a' <= c && c <= 'z' {
        let u = (c as u32) - 32;
        let b = u as u8;
        b as char
    } else {
        c
    }
}

/// The characters of `s`, in order.
pub fn str_chars(s: &str) -> (v: Vec<char>)
    ensures
        v@ == s@,
{
    let mut v: Vec<char> = Vec::new();
    for c in it: s.chars()
        invariant
            v@ == it.seq().take(it.index() as int),
            it.seq() == s@,
    {
        v.push(c);
    }
    v
}

/// Collects characters into a `String` (`Iterator::collect`).
#[verifier::external_body]
pub(crate) fn string_from_chars(chars: &[char]) -> (s: String)
    ensures
        s@ == chars@,
{
    chars.iter().collect()
}

/// `String::from_utf8_lossy`: bytes decoded as UTF-8, invalid sequences replaced by U+FFFD.
/// The contract names the result and states the documented case of valid UTF-8 input,
/// which is decoded unchanged; the replacement rule for invalid input is left to the name.
#[verifier::external_body]
pub(crate) fn utf8_lossy(bytes: &[u8]) -> (s: String)
    ensures
        s@ == spec_utf8_lossy(bytes@),
        valid_utf8(bytes@) ==> s@ == decode_utf8(bytes@),
{
    String::from_utf8_lossy(bytes).into_owned()
}

/// `str::trim`, as an owned string.
pub fn trim_str(s: &str) -> (r: String)
    ensures
        r@ == trim(s@),
{
    let c = str_chars(s);
    let a = skip_ws_from(c.as_slice(), 0);
    let b = trim_end_to(c.as_slice(), a, c.len());
    proof {
        assert(c@.skip(0) =~= c@);
        assert(c@.subrange(a as int, c@.len() as int) =~= c@.skip(a as int));
    }
    string_from_chars(&c.as_slice()[a..b])
}

/// First index `j >= from` whose character is not whitespace (or `s.len()`).
pub fn skip_ws_from(s: &[char], from: usize) -> (j: usize)
    requires
        from <= s@.len(),
    ensures
        from <= j <= s@.len(),
        j == ws_skip(s@, from as int),
        s@.skip(j as int) == trim_start(s@.skip(from as int)),
        forall|k: int| from <= k < j ==> is_ws(#[trigger] s@[k]),
{
    proof {
        lemma_ws_skip(s@, from as int);
    }
    let mut j = from;
    while j < s.len() && char_is_whitespace(s[j])
        invariant
            from <= j <= s@.len(),
            trim_start(s@.skip(j as int)) == trim_start(s@.skip(from as int)),
            ws_skip(s@, j as int) == ws_skip(s@, from as int),
            forall|k: int| from <= k < j ==> is_ws(#[trigger] s@[k]),
        decreases s@.len() - j,
    {
        assert(s@.skip(j as int).drop_first() =~= s@.skip(j + 1));
        j += 1;
    }
    if j < s.len() {
        assert(!is_ws(s@.skip(j as int)[0]));
    }
    j
}

/// Largest `j <= to` such that `s[from..j]` does not end in whitespace
/// (`str::trim_end` on the window `s[from..to]`).
pub fn trim_end_to(s: &[char], from: usize, to: usize) -> (j: usize)
    requires
        from <= to <= s@.len(),
    ensures
        from <= j <= to,
        s@.subrange(from as int, j as int) == trim_end(s@.subrange(from as int, to as int)),
        forall|k: int| j <= k < to ==> is_ws(#[trigger] s@[k]),
{
    let mut j = to;
    while j > from && char_is_whitespace(s[j - 1])
        invariant
            from <= j <= to,
            to <= s@.len(),
            trim_end(s@.subrange(from as int, j as int)) == trim_end(
                s@.subrange(from as int, to as int),
            ),
            forall|k: int| j <= k < to ==> is_ws(#[trigger] s@[k]),
        decreases j - from,
    {
        assert(s@.subrange(from as int, j as int).drop_last() =~= s@.subrange(
            from as int,
            j - 1,
        ));
        j -= 1;
    }
    j
}

/// Whether `s[i..]` begins with `p`.
pub fn starts_with_at(s: &[char], i: usize, p: &[char]) -> (r: bool)
    requires
        i <= s@.len(),
    ensures
        r == starts_with(s@.skip(i as int), p@),
{
    if p.len() > s.len() - i {
        return false;
    }
    let n = s.len();
    let mut k: usize = 0;
    while k < p.len()
        invariant
            k <= p@.len(),
            n == s@.len(),
            i + p@.len() <= n,
            forall|m: int| 0 <= m < k ==> s@[i + m] == p@[m],
        decreases p@.len() - k,
    {
        if s[i + k] != p[k] {
            assert(s@.skip(i as int).take(p@.len() as int)[k as int] != p@[k as int]);
            return false;
        }
        k += 1;
    }
    assert(s@.skip(i as int).take(p@.len() as int) =~= p@);
    true
}

/// Whether the ASCII-uppercased `s[i..]` begins with `p`.
pub fn upper_starts_with_at(s: &[char], i: usize, p: &[char]) -> (r: bool)
    requires
        i <= s@.len(),
    ensures
        r == starts_with(ascii_upper(s@.skip(i as int)), p@),
{
    let ghost u = ascii_upper(s@.skip(i as int));
    if p.len() > s.len() - i {
        return false;
    }
    let n = s.len();
    let mut k: usize = 0;
    while k < p.len()
        invariant
            k <= p@.len(),
            n == s@.len(),
            i + p@.len() <= n,
            u == ascii_upper(s@.skip(i as int)),
            forall|m: int| 0 <= m < k ==> upper_char(s@[i + m]) == p@[m],
        decreases p@.len() - k,
    {
        if char_upper(s[i + k]) != p[k] {
            assert(u.take(p@.len() as int)[k as int] != p@[k as int]);
            return false;
        }
        k += 1;
    }
    assert(u.take(p@.len() as int) =~= p@);
    true
}

/// Index (relative to `from`) of the first `c` in `s[from..]`.
pub fn find_char_from(s: &[char], from: usize, c: char) -> (r: Option<usize>)
    requires
        from <= s@.len(),
    ensures
        r matches Some(i) ==> find_char(s@.skip(from as int), c) == Some(i as int) && from + i
            < s@.len(),
        r is None ==> find_char(s@.skip(from as int), c) is None,
{
    proof {
        lemma_find_char(s@.skip(from as int), c);
    }
    let mut j = from;
    while j < s.len()
        invariant
            from <= j <= s@.len(),
            forall|k: int| from <= k < j ==> s@[k] != c,
        decreases s@.len() - j,
    {
        if s[j] == c {
            let ghost t = s@.skip(from as int);
            assert(t[j - from] == c);
            assert forall|k: int| 0 <= k < j - from implies #[trigger] t[k] != c by {
                assert(t[k] == s@[from + k]);
            }
            proof {
                lemma_find_char(t, c);
                match find_char(t, c) {
                    Some(i) => {
                        if i < j - from {
                            assert(t[i] != c);
                        } else if i > j - from {
                            assert(t[j - from] != c);
                        }
                    },
                    None => {
                        assert(t[j - from] != c);
                    },
                }
            }
            return Some(j - from);
        }
        j += 1;
    }
    let ghost t = s@.skip(from as int);
    assert forall|k: int| 0 <= k < t.len() implies #[trigger] t[k] != c by {
        assert(t[k] == s@[from + k]);
    }
    None
}

/// Index (relative to `from`) of the first occurrence of the non-empty `p` in `s[from..]`.
pub fn find_seq_from(s: &[char], from: usize, p: &[char]) -> (r: Option<usize>)
    requires
        from <= s@.len(),
        p@.len() > 0,
    ensures
        r matches Some(i) ==> find_seq(s@.skip(from as int), p@) == Some(i as int) && from + i
            + p@.len() <= s@.len(),
        r is None ==> find_seq(s@.skip(from as int), p@) is None,
{
    let ghost u = s@.skip(from as int);
    proof {
        lemma_find_seq(u, p@);
    }
    let mut j = from;
    while j < s.len()
        invariant
            from <= j <= s@.len(),
            u == s@.skip(from as int),
            forall|k: int| 0 <= k < j - from ==> !#[trigger] starts_with(u.skip(k), p@),
        decreases s@.len() - j,
    {
        let hit = starts_with_at(s, j, p);
        proof {
            assert(u.skip(j - from) =~= s@.skip(j as int));
        }
        if hit {
            proof {
                lemma_find_seq(u, p@);
                match find_seq(u, p@) {
                    Some(i) => {
                        if i < j - from {
                            assert(!starts_with(u.skip(i), p@));
                        } else if i > j - from {
                            assert(!starts_with(u.skip(j - from), p@));
                        }
                    },
                    None => {
                        assert(!starts_with(u.skip(j - from), p@));
                    },
                }
            }
            return Some(j - from);
        }
        j += 1;
    }
    proof {
        assert forall|k: int| 0 <= k && k + p@.len() <= u.len() implies !#[trigger] starts_with(
            u.skip(k),
            p@,
        ) by {}
    }
    None
}

/// Index (relative to `from`) of the first occurrence of the non-empty `p` in the
/// ASCII-uppercased `s[from..]`.
pub fn find_upper_seq_from(s: &[char], from: usize, p: &[char]) -> (r: Option<usize>)
    requires
        from <= s@.len(),
        p@.len() > 0,
    ensures
        r matches Some(i) ==> find_seq(ascii_upper(s@.skip(from as int)), p@) == Some(i as int)
            && from + i + p@.len() <= s@.len(),
        r is None ==> find_seq(ascii_upper(s@.skip(from as int)), p@) is None,
{
    let ghost u = ascii_upper(s@.skip(from as int));
    proof {
        lemma_find_seq(u, p@);
    }
    let mut j = from;
    while j < s.len()
        invariant
            from <= j <= s@.len(),
            u == ascii_upper(s@.skip(from as int)),
            forall|k: int| 0 <= k < j - from ==> !#[trigger] starts_with(u.skip(k), p@),
        decreases s@.len() - j,
    {
        let hit = upper_starts_with_at(s, j, p);
        proof {
            assert(u.skip(j - from) =~= ascii_upper(s@.skip(j as int)));
        }
        if hit {
            proof {
                lemma_find_seq(u, p@);
                match find_seq(u, p@) {
                    Some(i) => {
                        if i < j - from {
                            assert(!starts_with(u.skip(i), p@));
                        } else if i > j - from {
                            assert(!starts_with(u.skip(j - from), p@));
                        }
                    },
                    None => {
                        assert(!starts_with(u.skip(j - from), p@));
                    },
                }
            }
            return Some(j - from);
        }
        j += 1;
    }
    proof {
        assert forall|k: int| 0 <= k && k + p@.len() <= u.len() implies !#[trigger] starts_with(
            u.skip(k),
            p@,
        ) by {}
    }
    None
}

// ---------------------------------------------------------------------------
// Decimal text of integers, and replacing patterns
// ---------------------------------------------------------------------------

/// The decimal digit for `d < 10`.
pub open spec fn digit_char(d: int) -> char {
    (48 + d) as char
}

/// Decimal text of a natural number, without leading zeros.
pub open spec fn decimal(n: nat) -> Seq<char>
    decreases n,
{
    if n < 10 {
        seq![digit_char(n as int)]
    } else {
        decimal(n / 10).push(digit_char((n % 10) as int))
    }
}

/// Decimal text of an integer, with `-` before negative numbers (as `Display` writes it).
pub open spec fn int_text(n: int) -> Seq<char> {
    if n < 0 {
        seq!['-'] + decimal((-n) as nat)
    } else {
        decimal(n as nat)
    }
}

fn digit_of(d: u64) -> (c: char)
    requires
        d < 10,
    ensures
        c == digit_char(d as int),
{
    let b = (48 + d) as u8;
    b as char
}

/// Decimal text of an unsigned integer.
pub fn u64_text(n: u64) -> (r: String)
    ensures
        r@ == decimal(n as nat),
{
    let mut acc: Vec<char> = Vec::new();
    let mut m = n;
    assert(acc@ =~= Seq::<char>::empty());
    assert(decimal(n as nat) =~= decimal(m as nat) + acc@);
    while m >= 10
        invariant
            decimal(n as nat) == decimal(m as nat) + acc@,
        decreases m,
    {
        let d = m % 10;
        let c = digit_of(d);
        let ghost before = acc@;
        acc.insert(0, c);
        assert(acc@ =~= seq![c] + before);
        assert(decimal(m as nat) == decimal((m / 10) as nat).push(c));
        assert(decimal((m / 10) as nat).push(c) + before =~= decimal((m / 10) as nat) + acc@);
        m = m / 10;
    }
    let c = digit_of(m);
    let ghost before = acc@;
    acc.insert(0, c);
    assert(acc@ =~= decimal(n as nat));
    string_from_chars(acc.as_slice())
}

/// Decimal text of a signed integer.
pub fn i64_text(n: i64) -> (r: String)
    ensures
        r@ == int_text(n as int),
{
    if n < 0 {
        let m: u64 = ((-(n + 1)) as u64) + 1;
        let digits = u64_text(m);
        let mut out = "-".to_string();
        proof {
            reveal_strlit("-");
        }
        out.append(digits.as_str());
        assert(out@ =~= int_text(n as int));
        out
    } else {
        u64_text(n as u64)
    }
}

/// `str::replace` for a non-empty pattern: every non-overlapping occurrence of `pat`,
/// from left to right, replaced by `rep`.
pub open spec fn replace_all(s: Seq<char>, pat: Seq<char>, rep: Seq<char>) -> Seq<char>
    decreases s.len(),
{
    if pat.len() == 0 {
        s
    } else {
        match find_seq(s, pat) {
            Some(i) => {
                proof {
                    lemma_find_seq(s, pat);
                }
                s.take(i) + rep + replace_all(s.skip(i + pat.len()), pat, rep)
            },
            None => s,
        }
    }
}

/// Replaces every occurrence of the non-empty `pat` in `s` by `rep`.
pub fn replace_str(s: &str, pat: &str, rep: &str) -> (r: String)
    requires
        pat@.len() > 0,
    ensures
        r@ == replace_all(s@, pat@, rep@),
{
    let c = str_chars(s);
    let p = str_chars(pat);
    let r = str_chars(rep);
    let mut out: Vec<char> = Vec::new();
    let mut pos: usize = 0;
    let n: usize = c.len();
    assert(c@.skip(0) =~= c@);
    loop
        invariant
            pos <= c@.len(),
            n == c@.len(),
            c@ == s@,
            p@ == pat@,
            r@ == rep@,
            p@.len() > 0,
            out@ + replace_all(c@.skip(pos as int), p@, r@) == replace_all(s@, pat@, rep@),
        decreases c@.len() - pos,
    {
        match find_seq_from(c.as_slice(), pos, p.as_slice()) {
            Some(i) => {
                let ghost before = out@;
                let mut k: usize = pos;
                while k < pos + i
                    invariant
                        pos <= k <= pos + i,
                        pos + i + p@.len() <= c@.len(),
                        n == c@.len(),
                        out@ == before + c@.subrange(pos as int, k as int),
                    decreases pos + i - k,
                {
                    out.push(c[k]);
                    assert(c@.subrange(pos as int, k + 1) =~= c@.subrange(pos as int, k as int).push(
                        c@[k as int],
                    ));
                    k += 1;
                }
                let mut rc = r.clone();
                out.append(&mut rc);
                proof {
                    let t = c@.skip(pos as int);
                    assert(t.take(i as int) =~= c@.subrange(pos as int, (pos + i) as int));
                    assert(t.skip(i + p@.len()) =~= c@.skip(pos + i + p@.len()));
                    assert(out@ =~= before + t.take(i as int) + r@);
                    assert(out@ + replace_all(c@.skip(pos + i + p@.len()), p@, r@) =~= before + (
                    t.take(i as int) + r@ + replace_all(t.skip(i + p@.len()), p@, r@)));
                }
                pos = pos + i + p.len();
            },
            None => {
                let ghost before = out@;
                let mut k: usize = pos;
                while k < c.len()
                    invariant
                        pos <= k <= c@.len(),
                        out@ == before + c@.subrange(pos as int, k as int),
                    decreases c@.len() - k,
                {
                    out.push(c[k]);
                    assert(c@.subrange(pos as int, k + 1) =~= c@.subrange(pos as int, k as int).push(
                        c@[k as int],
                    ));
                    k += 1;
                }
                assert(c@.subrange(pos as int, c@.len() as int) =~= c@.skip(pos as int));
                return string_from_chars(out.as_slice());
            },
        }
    }
}


// ---------------------------------------------------------------------------
// Order of strings
// ---------------------------------------------------------------------------

/// The order of `String`'s `Ord`: lexicographic, character by character (the order of
/// the UTF-8 bytes is the order of the code points), a proper prefix first.
pub open spec fn text_lt(a: Seq<char>, b: Seq<char>) -> bool
    decreases a.len(),
{
    if a.len() == 0 {
        b.len() > 0
    } else if b.len() == 0 {
        false
    } else if a[0] != b[0] {
        (a[0] as int) < (b[0] as int)
    } else {
        text_lt(a.drop_first(), b.drop_first())
    }
}

/// No string comes before itself.
pub proof fn lemma_text_lt_irreflexive(a: Seq<char>)
    ensures
        !text_lt(a, a),
    decreases a.len(),
{
    if a.len() > 0 {
        lemma_text_lt_irreflexive(a.drop_first());
    }
}

/// The order is transitive.
pub proof fn lemma_text_lt_transitive(a: Seq<char>, b: Seq<char>, c: Seq<char>)
    requires
        text_lt(a, b),
        text_lt(b, c),
    ensures
        text_lt(a, c),
    decreases a.len(),
{
    if a.len() > 0 && b.len() > 0 && c.len() > 0 {
        if a[0] == b[0] && b[0] == c[0] {
            lemma_text_lt_transitive(a.drop_first(), b.drop_first(), c.drop_first());
        }
    }
}

/// Of two different strings, one comes before the other; never both.
pub proof fn lemma_text_lt_total(a: Seq<char>, b: Seq<char>)
    ensures
        a != b ==> (text_lt(a, b) || text_lt(b, a)),
        !(text_lt(a, b) && text_lt(b, a)),
    decreases a.len(),
{
    if a.len() == 0 {
        if b.len() == 0 {
            assert(a =~= b);
        }
    } else if b.len() > 0 {
        if a[0] == b[0] {
            lemma_text_lt_total(a.drop_first(), b.drop_first());
            if a.drop_first() == b.drop_first() {
                assert(a =~= seq![a[0]] + a.drop_first());
                assert(b =~= seq![b[0]] + b.drop_first());
            }
        } else {
            assert((a[0] as int) != (b[0] as int));
        }
    }
}

proof fn lemma_text_lt_skip(a: Seq<char>, b: Seq<char>, i: int)
    requires
        0 <= i <= a.len(),
        i <= b.len(),
        a.take(i) == b.take(i),
    ensures
        text_lt(a, b) == text_lt(a.skip(i), b.skip(i)),
    decreases i,
{
    if i > 0 {
        assert(a[0] == a.take(i)[0]);
        assert(b[0] == b.take(i)[0]);
        assert(a.drop_first().take(i - 1) =~= a.take(i).drop_first());
        assert(b.drop_first().take(i - 1) =~= b.take(i).drop_first());
        lemma_text_lt_skip(a.drop_first(), b.drop_first(), i - 1);
        assert(a.drop_first().skip(i - 1) =~= a.skip(i));
        assert(b.drop_first().skip(i - 1) =~= b.skip(i));
    } else {
        assert(a.skip(0) =~= a);
        assert(b.skip(0) =~= b);
    }
}

/// Whether `a` comes before `b` in the order of `String`.
pub fn text_less(a: &[char], b: &[char]) -> (r: bool)
    ensures
        r == text_lt(a@, b@),
{
    let mut i: usize = 0;
    while i < a.len() && i < b.len()
        invariant
            i <= a@.len(),
            i <= b@.len(),
            a@.take(i as int) == b@.take(i as int),
        decreases a@.len() - i,
    {
        if a[i] != b[i] {
            proof {
                lemma_text_lt_skip(a@, b@, i as int);
                assert(a@.skip(i as int)[0] == a@[i as int]);
                assert(b@.skip(i as int)[0] == b@[i as int]);
            }
            return a[i] < b[i];
        }
        assert(a@.take(i + 1) =~= a@.take(i as int).push(a@[i as int]));
        assert(b@.take(i + 1) =~= b@.take(i as int).push(b@[i as int]));
        i += 1;
    }
    proof {
        lemma_text_lt_skip(a@, b@, i as int);
    }
    i < b.len()
}

} // verus!
