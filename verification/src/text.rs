//! Text as sequences of characters: searching, trimming, splitting, comparing
//! and building it.

use vstd::prelude::*;
use vstd::slice::slice_subrange;
use vstd::utf8::encode_utf8;

verus! {

/// `String::push` appends one character.
#[verifier::external_body]
fn push_char(s: &mut String, c: char)
    ensures
        final(s)@ == old(s)@.push(c),
{
    s.push(c);
}

/// The texts of a list of strings.
pub open spec fn texts(v: Seq<String>) -> Seq<Seq<char>> {
    Seq::new(v.len(), |i: int| v[i]@)
}

/// The texts of a list of pieces.
pub open spec fn pieces(v: Seq<&[char]>) -> Seq<Seq<char>> {
    Seq::new(v.len(), |i: int| v[i]@)
}

// ── Searching ──────────────────────────────────────────────────────

/// Whether `t` stands in `s` at `i`.
pub open spec fn occurs_at(s: Seq<char>, t: Seq<char>, i: int) -> bool {
    0 <= i && i + t.len() <= s.len() && s.subrange(i, i + t.len()) == t
}

/// Whether `t` stands in `s` somewhere.
pub open spec fn occurs(s: Seq<char>, t: Seq<char>) -> bool {
    exists|i: int| occurs_at(s, t, i)
}

/// Whether `s` starts with `t`.
pub open spec fn starts(s: Seq<char>, t: Seq<char>) -> bool {
    occurs_at(s, t, 0)
}

/// Whether `s` ends with `t`.
pub open spec fn ends(s: Seq<char>, t: Seq<char>) -> bool {
    occurs_at(s, t, s.len() - t.len())
}

/// What follows the prefix `t` of `s`.
pub open spec fn after_prefix(s: Seq<char>, t: Seq<char>) -> Seq<char> {
    s.subrange(t.len() as int, s.len() as int)
}

/// Where `c` stands first in `s` at or behind `i`, or the length of `s`.
pub open spec fn find(s: Seq<char>, c: char, i: int) -> int
    decreases s.len() - i,
{
    if i >= s.len() {
        s.len() as int
    } else if s[i] == c {
        i
    } else {
        find(s, c, i + 1)
    }
}

// ── White space ────────────────────────────────────────────────────

/// The characters with the Unicode property `White_Space`.
pub open spec fn is_space(c: char) -> bool {
    ||| 0x09 <= c as u32 <= 0x0D
    ||| c as u32 == 0x20
    ||| c as u32 == 0x85
    ||| c as u32 == 0xA0
    ||| c as u32 == 0x1680
    ||| 0x2000 <= c as u32 <= 0x200A
    ||| c as u32 == 0x2028
    ||| c as u32 == 0x2029
    ||| c as u32 == 0x202F
    ||| c as u32 == 0x205F
    ||| c as u32 == 0x3000
}

/// `s` without white space at its start.
pub open spec fn trimmed_start(s: Seq<char>) -> Seq<char>
    decreases s.len(),
{
    if s.len() > 0 && is_space(s[0]) {
        trimmed_start(s.drop_first())
    } else {
        s
    }
}

/// `s` without white space at its end.
pub open spec fn trimmed_end(s: Seq<char>) -> Seq<char>
    decreases s.len(),
{
    if s.len() > 0 && is_space(s.last()) {
        trimmed_end(s.drop_last())
    } else {
        s
    }
}

/// `s` without white space at either end.
pub open spec fn trimmed(s: Seq<char>) -> Seq<char> {
    trimmed_end(trimmed_start(s))
}

/// `s` without the characters `c` at its start.
pub open spec fn without_leading(s: Seq<char>, c: char) -> Seq<char>
    decreases s.len(),
{
    if s.len() > 0 && s[0] == c {
        without_leading(s.drop_first(), c)
    } else {
        s
    }
}

/// How many characters stand before the first white space of `s`, from `i` on.
pub open spec fn word_len(s: Seq<char>, i: int) -> int
    decreases s.len() - i,
{
    if i >= s.len() || is_space(s[i]) {
        i
    } else {
        word_len(s, i + 1)
    }
}

/// The words of `s`: what is left between white space.
pub open spec fn words(s: Seq<char>) -> Seq<Seq<char>>
    decreases s.len(),
    when true
    via words_terminates
{
    let t = trimmed_start(s);
    if t.len() == 0 {
        Seq::empty()
    } else {
        let n = word_len(t, 0);
        seq![t.subrange(0, n)] + words(t.subrange(n, t.len() as int))
    }
}

#[via_fn]
proof fn words_terminates(s: Seq<char>) {
    let t = trimmed_start(s);
    lemma_trimmed_start(s);
    if t.len() > 0 {
        lemma_word_len(t, 0);
        assert(word_len(t, 0) >= 1);
    }
}

// ── Splitting ──────────────────────────────────────────────────────

/// The pieces of `s` between the characters `c`.
pub open spec fn split(s: Seq<char>, c: char) -> Seq<Seq<char>>
    decreases s.len(),
    when true
    via split_terminates
{
    let i = find(s, c, 0);
    if i >= s.len() {
        seq![s]
    } else {
        seq![s.subrange(0, i)] + split(s.subrange(i + 1, s.len() as int), c)
    }
}

#[via_fn]
proof fn split_terminates(s: Seq<char>, c: char) {
    lemma_find(s, c, 0);
}

/// `s` without a carriage return at its end.
pub open spec fn without_return(s: Seq<char>) -> Seq<char> {
    if s.len() > 0 && s.last() == '\r' {
        s.drop_last()
    } else {
        s
    }
}

/// The lines of `s`. A line ends with a line feed, or a carriage return and a
/// line feed, neither of which belongs to it; the last one may lack them.
pub open spec fn lines(s: Seq<char>) -> Seq<Seq<char>>
    decreases s.len(),
    when true
    via lines_terminates
{
    let i = find(s, '\n', 0);
    if s.len() == 0 {
        Seq::empty()
    } else if i >= s.len() {
        seq![s]
    } else {
        seq![without_return(s.subrange(0, i))] + lines(s.subrange(i + 1, s.len() as int))
    }
}

#[via_fn]
proof fn lines_terminates(s: Seq<char>) {
    lemma_find(s, '\n', 0);
}

// ── Case and order ─────────────────────────────────────────────────

/// `c` with an upper-case ASCII letter made lower-case.
pub open spec fn ascii_lower(c: char) -> char {
    if 'A' <= c && c <= 'Z' {
        ((c as u32) + 32) as char
    } else {
        c
    }
}

/// `s` with upper-case ASCII letters made lower-case.
pub open spec fn lowered(s: Seq<char>) -> Seq<char> {
    Seq::new(s.len(), |i: int| ascii_lower(s[i]))
}

/// Whether `a` comes before `b` in the order of their characters.
pub open spec fn precedes(a: Seq<char>, b: Seq<char>) -> bool
    decreases a.len(),
{
    if b.len() == 0 {
        false
    } else if a.len() == 0 {
        true
    } else if a[0] == b[0] {
        precedes(a.drop_first(), b.drop_first())
    } else {
        (a[0] as u32) < (b[0] as u32)
    }
}

// ── Numbers ────────────────────────────────────────────────────────

/// The decimal digit of `d`.
pub open spec fn digit(d: nat) -> char {
    (48 + d) as char
}

/// The decimal spelling of `n`.
pub open spec fn decimal(n: nat) -> Seq<char>
    decreases n,
{
    if n < 10 {
        seq![digit(n)]
    } else {
        decimal(n / 10).push(digit(n % 10))
    }
}

/// The upper-case hexadecimal digit of `d`.
pub open spec fn hex_upper(d: nat) -> char {
    if d < 10 {
        (48 + d) as char
    } else {
        (55 + d) as char
    }
}

/// The last `width` hexadecimal digits of `n`, upper-case.
pub open spec fn hex_digits(n: nat, width: nat) -> Seq<char>
    decreases width,
{
    if width == 0 {
        Seq::empty()
    } else {
        hex_digits(n / 16, (width - 1) as nat).push(hex_upper(n % 16))
    }
}

// ── Lemmas ─────────────────────────────────────────────────────────

pub(crate) proof fn lemma_find(s: Seq<char>, c: char, i: int)
    requires
        0 <= i,
    ensures
        find(s, c, i) <= s.len(),
        i <= s.len() ==> i <= find(s, c, i),
        find(s, c, i) < s.len() ==> s[find(s, c, i)] == c,
        forall|j: int| i <= j < find(s, c, i) ==> s[j] != c,
    decreases s.len() - i,
{
    if i < s.len() && s[i] != c {
        lemma_find(s, c, i + 1);
    }
}

proof fn lemma_trimmed_start(s: Seq<char>)
    ensures
        trimmed_start(s).len() <= s.len(),
        trimmed_start(s) == s.subrange(s.len() - trimmed_start(s).len(), s.len() as int),
        trimmed_start(s).len() > 0 ==> !is_space(trimmed_start(s)[0]),
    decreases s.len(),
{
    if s.len() > 0 && is_space(s[0]) {
        lemma_trimmed_start(s.drop_first());
        assert(trimmed_start(s) =~= s.subrange(
            s.len() - trimmed_start(s).len(),
            s.len() as int,
        ));
    } else {
        assert(s =~= s.subrange(0, s.len() as int));
    }
}

proof fn lemma_word_len(s: Seq<char>, i: int)
    requires
        0 <= i <= s.len(),
    ensures
        i <= word_len(s, i) <= s.len(),
        i < s.len() && !is_space(s[i]) ==> i < word_len(s, i),
    decreases s.len() - i,
{
    if i < s.len() && !is_space(s[i]) {
        lemma_word_len(s, i + 1);
    }
}

/// Equal UTF-8 bytes mean equal texts.
proof fn lemma_utf8_injective(a: Seq<char>, b: Seq<char>)
    requires
        encode_utf8(a) == encode_utf8(b),
    ensures
        a == b,
{
    vstd::utf8::encode_utf8_decode_utf8(a);
    vstd::utf8::encode_utf8_decode_utf8(b);
}

// ── Functions ──────────────────────────────────────────────────────

/// The characters of `s`.
pub fn chars_of(s: &str) -> (v: Vec<char>)
    ensures
        v@ == s@,
{
    let mut v: Vec<char> = Vec::new();
    for c in it: s.chars()
        invariant
            v@.len() == it.index(),
            forall|i: int| 0 <= i < v@.len() ==> v@[i] == it.seq()[i],
            it.seq() == s@,
    {
        v.push(c);
    }
    proof {
        assert(v@ =~= s@);
    }
    v
}

/// The string of the characters `v`.
pub fn string_of(v: &[char]) -> (s: String)
    ensures
        s@ == v@,
{
    let mut s = String::new();
    let mut i: usize = 0;
    while i < v.len()
        invariant
            i <= v@.len(),
            s@ == v@.take(i as int),
        decreases v@.len() - i,
    {
        push_char(&mut s, v[i]);
        proof {
            assert(v@.take(i + 1) =~= v@.take(i as int).push(v@[i as int]));
        }
        i = i + 1;
    }
    proof {
        assert(v@.take(i as int) =~= v@);
    }
    s
}

/// Whether two texts are the same.
pub fn same(a: &str, b: &str) -> (r: bool)
    ensures
        r == (a@ == b@),
{
    let x = a.as_bytes();
    let y = b.as_bytes();
    if x.len() != y.len() {
        return false;
    }
    let mut i: usize = 0;
    while i < x.len()
        invariant
            i <= x@.len(),
            x@.len() == y@.len(),
            x@ == encode_utf8(a@),
            y@ == encode_utf8(b@),
            forall|j: int| 0 <= j < i ==> x@[j] == y@[j],
        decreases x@.len() - i,
    {
        if x[i] != y[i] {
            return false;
        }
        i = i + 1;
    }
    proof {
        assert(x@ =~= y@);
        lemma_utf8_injective(a@, b@);
    }
    true
}

/// Whether two texts are the same but for the case of ASCII letters.
pub fn same_ignoring_case(a: &str, b: &str) -> (r: bool)
    ensures
        r == (lowered(a@) == lowered(b@)),
{
    let x = chars_of(a);
    let y = chars_of(b);
    if x.len() != y.len() {
        assert(lowered(a@).len() != lowered(b@).len());
        return false;
    }
    let mut i: usize = 0;
    while i < x.len()
        invariant
            i <= x@.len(),
            x@.len() == y@.len(),
            x@ == a@,
            y@ == b@,
            forall|j: int| 0 <= j < i ==> ascii_lower(x@[j]) == ascii_lower(y@[j]),
        decreases x@.len() - i,
    {
        if lower_code(x[i]) != lower_code(y[i]) {
            assert(lowered(a@)[i as int] != lowered(b@)[i as int]);
            return false;
        }
        i = i + 1;
    }
    proof {
        assert(lowered(a@) =~= lowered(b@));
    }
    true
}

/// The code point of `c` with an upper-case ASCII letter made lower-case.
fn lower_code(c: char) -> (n: u32)
    ensures
        n == ascii_lower(c) as u32,
{
    let n: u32 = c as u32;
    if 'A' as u32 <= n && n <= 'Z' as u32 {
        n + 32
    } else {
        n
    }
}

/// `s` with upper-case ASCII letters made lower-case.
pub fn to_lower(s: &str) -> (v: Vec<char>)
    ensures
        v@ == lowered(s@),
{
    let x = chars_of(s);
    let mut v: Vec<char> = Vec::new();
    let mut i: usize = 0;
    while i < x.len()
        invariant
            i <= x@.len(),
            x@ == s@,
            v@ == lowered(s@).take(i as int),
        decreases x@.len() - i,
    {
        let n: u32 = lower_code(x[i]);
        let c: char = if n != x[i] as u32 {
            n as u8 as char
        } else {
            x[i]
        };
        v.push(c);
        proof {
            assert(c == lowered(s@)[i as int]);
            assert(lowered(s@).take(i + 1) =~= lowered(s@).take(i as int).push(c));
        }
        i = i + 1;
    }
    proof {
        assert(lowered(s@).take(i as int) =~= lowered(s@));
    }
    v
}

/// Whether `t` stands in `s` at `i`.
fn matches_at(s: &[char], t: &[char], i: usize) -> (r: bool)
    requires
        i + t@.len() <= s@.len(),
    ensures
        r == occurs_at(s@, t@, i as int),
{
    let mut j: usize = 0;
    while j < t.len()
        invariant
            j <= t@.len(),
            i + t@.len() <= s@.len(),
            forall|k: int| 0 <= k < j ==> s@[i + k] == t@[k],
        decreases t@.len() - j,
    {
        assert(i + j < s.len());
        if s[i + j] != t[j] {
            assert(s@.subrange(i as int, i + t@.len())[j as int] != t@[j as int]);
            return false;
        }
        j = j + 1;
    }
    proof {
        assert(s@.subrange(i as int, i + t@.len()) =~= t@);
    }
    true
}

/// Whether `t` stands in `s` somewhere.
pub fn contains(s: &[char], t: &str) -> (r: bool)
    ensures
        r == occurs(s@, t@),
{
    let needle = chars_of(t);
    if needle.len() > s.len() {
        return false;
    }
    let last: usize = s.len() - needle.len();
    let mut i: usize = 0;
    while i <= last
        invariant
            needle@ == t@,
            last == s@.len() - needle@.len(),
            i <= last + 1,
            forall|j: int| 0 <= j < i ==> !occurs_at(s@, t@, j),
        decreases last + 1 - i,
    {
        if matches_at(s, needle.as_slice(), i) {
            return true;
        }
        if i == last {
            assert(forall|j: int| !occurs_at(s@, t@, j));
            return false;
        }
        i = i + 1;
    }
    false
}

/// Whether `s` starts with `t`.
pub fn starts_with(s: &[char], t: &str) -> (r: bool)
    ensures
        r == starts(s@, t@),
{
    let t = chars_of(t);
    t.len() <= s.len() && matches_at(s, t.as_slice(), 0)
}

/// Whether `s` ends with `t`.
pub fn ends_with(s: &[char], t: &str) -> (r: bool)
    ensures
        r == ends(s@, t@),
{
    let t = chars_of(t);
    t.len() <= s.len() && matches_at(s, t.as_slice(), s.len() - t.len())
}

/// What follows the prefix `t` of `s`, if it has that prefix.
pub fn strip_prefix<'a>(s: &'a [char], t: &str) -> (r: Option<&'a [char]>)
    ensures
        match r {
            Some(rest) => starts(s@, t@) && rest@ == after_prefix(s@, t@),
            None => !starts(s@, t@),
        },
{
    let t = chars_of(t);
    if t.len() <= s.len() && matches_at(s, t.as_slice(), 0) {
        Some(slice_subrange(s, t.len(), s.len()))
    } else {
        None
    }
}

/// Where `c` stands first in `s`, or the length of `s`.
pub fn find_char(s: &[char], c: char) -> (i: usize)
    ensures
        i == find(s@, c, 0),
        i <= s@.len(),
{
    let mut i: usize = 0;
    while i < s.len()
        invariant
            i <= s@.len(),
            find(s@, c, i as int) == find(s@, c, 0),
        decreases s@.len() - i,
    {
        if s[i] == c {
            return i;
        }
        i = i + 1;
    }
    i
}

/// Whether `c` is white space.
pub fn white_space(c: char) -> (r: bool)
    ensures
        r == is_space(c),
{
    let n: u32 = c as u32;
    (0x09 <= n && n <= 0x0D) || n == 0x20 || n == 0x85 || n == 0xA0 || n == 0x1680 || (0x2000 <= n
        && n <= 0x200A) || n == 0x2028 || n == 0x2029 || n == 0x202F || n == 0x205F || n == 0x3000
}

/// `s` without white space at its start.
pub fn trim_start<'a>(s: &'a [char]) -> (r: &'a [char])
    ensures
        r@ == trimmed_start(s@),
{
    let mut i: usize = 0;
    proof {
        assert(s@.skip(0) =~= s@);
    }
    while i < s.len() && white_space(s[i])
        invariant
            i <= s@.len(),
            trimmed_start(s@.skip(i as int)) == trimmed_start(s@),
        decreases s@.len() - i,
    {
        proof {
            assert(s@.skip(i as int).drop_first() =~= s@.skip(i + 1));
        }
        i = i + 1;
    }
    proof {
        assert(s@.skip(i as int) =~= s@.subrange(i as int, s@.len() as int));
    }
    slice_subrange(s, i, s.len())
}

/// `s` without white space at its end.
fn trim_end<'a>(s: &'a [char]) -> (r: &'a [char])
    ensures
        r@ == trimmed_end(s@),
{
    let mut n: usize = s.len();
    proof {
        assert(s@.take(s@.len() as int) =~= s@);
    }
    while n > 0 && white_space(s[n - 1])
        invariant
            n <= s@.len(),
            trimmed_end(s@.take(n as int)) == trimmed_end(s@),
        decreases n,
    {
        proof {
            assert(s@.take(n as int).drop_last() =~= s@.take(n - 1));
        }
        n = n - 1;
    }
    proof {
        assert(s@.take(n as int) =~= s@.subrange(0, n as int));
    }
    slice_subrange(s, 0, n)
}

/// `s` without white space at either end.
pub fn trim<'a>(s: &'a [char]) -> (r: &'a [char])
    ensures
        r@ == trimmed(s@),
{
    trim_end(trim_start(s))
}

/// `s` without the characters `c` at its start.
pub fn trim_start_matches<'a>(s: &'a [char], c: char) -> (r: &'a [char])
    ensures
        r@ == without_leading(s@, c),
{
    let mut i: usize = 0;
    proof {
        assert(s@.skip(0) =~= s@);
    }
    while i < s.len() && s[i] == c
        invariant
            i <= s@.len(),
            without_leading(s@.skip(i as int), c) == without_leading(s@, c),
        decreases s@.len() - i,
    {
        proof {
            assert(s@.skip(i as int).drop_first() =~= s@.skip(i + 1));
        }
        i = i + 1;
    }
    proof {
        assert(s@.skip(i as int) =~= s@.subrange(i as int, s@.len() as int));
    }
    slice_subrange(s, i, s.len())
}

/// The words of `s`.
pub fn split_whitespace<'a>(s: &'a [char]) -> (v: Vec<&'a [char]>)
    ensures
        pieces(v@) == words(s@),
{
    let mut v: Vec<&'a [char]> = Vec::new();
    let mut rest: &'a [char] = trim_start(s);
    proof {
        lemma_trim_idempotent(s@);
        lemma_words_trimmed(s@);
        assert(pieces(v@) + words(rest@) =~= words(s@));
    }
    while rest.len() > 0
        invariant
            trimmed_start(rest@) == rest@,
            pieces(v@) + words(rest@) == words(s@),
        decreases rest@.len(),
    {
        let mut n: usize = 0;
        while n < rest.len() && !white_space(rest[n])
            invariant
                n <= rest@.len(),
                word_len(rest@, n as int) == word_len(rest@, 0),
            decreases rest@.len() - n,
        {
            n = n + 1;
        }
        let ghost here = rest@;
        let ghost before = v@;
        let word = slice_subrange(rest, 0, n);
        let tail = slice_subrange(rest, n, rest.len());
        v.push(word);
        rest = trim_start(tail);
        proof {
            lemma_word_len(here, 0);
            lemma_trimmed_start(here);
            lemma_trimmed_start(tail@);
            lemma_words_trimmed(tail@);
            assert(words(here) == seq![word@] + words(tail@));
            assert(pieces(v@) =~= pieces(before).push(word@));
            assert(pieces(before) + (seq![word@] + words(tail@)) =~= pieces(v@) + words(tail@));
            lemma_trim_idempotent(tail@);
        }
    }
    proof {
        assert(words(rest@) =~= Seq::<Seq<char>>::empty());
        assert(pieces(v@) + words(rest@) =~= pieces(v@));
    }
    v
}

proof fn lemma_trim_idempotent(s: Seq<char>)
    ensures
        trimmed_start(trimmed_start(s)) == trimmed_start(s),
    decreases s.len(),
{
    if s.len() > 0 && is_space(s[0]) {
        lemma_trim_idempotent(s.drop_first());
    }
}

proof fn lemma_words_trimmed(s: Seq<char>)
    ensures
        words(trimmed_start(s)) == words(s),
{
    lemma_trim_idempotent(s);
}

/// The pieces of `s` between the characters `c`.
pub fn split_on<'a>(s: &'a [char], c: char) -> (v: Vec<&'a [char]>)
    ensures
        pieces(v@) == split(s@, c),
{
    let mut v: Vec<&'a [char]> = Vec::new();
    let mut rest: &'a [char] = s;
    proof {
        assert(pieces(v@) + split(rest@, c) =~= split(s@, c));
    }
    loop
        invariant
            pieces(v@) + split(rest@, c) == split(s@, c),
        decreases rest@.len(),
    {
        let i: usize = find_char(rest, c);
        let ghost before = v@;
        let ghost here = rest@;
        if i >= rest.len() {
            v.push(rest);
            proof {
                assert(pieces(v@) =~= pieces(before) + seq![here]);
            }
            return v;
        }
        let piece = slice_subrange(rest, 0, i);
        let tail = slice_subrange(rest, i + 1, rest.len());
        v.push(piece);
        rest = tail;
        proof {
            assert(pieces(v@) =~= pieces(before).push(piece@));
            assert(pieces(before) + (seq![piece@] + split(tail@, c)) =~= pieces(v@) + split(
                tail@,
                c,
            ));
        }
    }
}

/// The lines of `s`.
pub fn split_lines<'a>(s: &'a [char]) -> (v: Vec<&'a [char]>)
    ensures
        pieces(v@) == lines(s@),
{
    let mut v: Vec<&'a [char]> = Vec::new();
    let mut rest: &'a [char] = s;
    proof {
        assert(pieces(v@) + lines(rest@) =~= lines(s@));
    }
    while rest.len() > 0
        invariant
            pieces(v@) + lines(rest@) == lines(s@),
        decreases rest@.len(),
    {
        let i: usize = find_char(rest, '\n');
        let ghost before = v@;
        let ghost here = rest@;
        if i >= rest.len() {
            v.push(rest);
            proof {
                assert(pieces(v@) =~= pieces(before) + seq![here]);
            }
            return v;
        }
        let end: usize = if i > 0 && rest[i - 1] == '\r' {
            i - 1
        } else {
            i
        };
        let line = slice_subrange(rest, 0, end);
        let tail = slice_subrange(rest, i + 1, rest.len());
        v.push(line);
        rest = tail;
        proof {
            assert(line@ =~= without_return(here.subrange(0, i as int)));
            assert(pieces(v@) =~= pieces(before).push(line@));
            assert(pieces(before) + (seq![line@] + lines(tail@)) =~= pieces(v@) + lines(tail@));
        }
    }
    proof {
        assert(pieces(v@) + lines(rest@) =~= pieces(v@));
    }
    v
}

/// Whether `a` comes before `b` in the order of their characters.
pub fn comes_before(a: &str, b: &str) -> (r: bool)
    ensures
        r == precedes(a@, b@),
{
    let x = chars_of(a);
    let y = chars_of(b);
    let mut i: usize = 0;
    proof {
        assert(x@.skip(0) =~= x@);
        assert(y@.skip(0) =~= y@);
    }
    while i < x.len() && i < y.len()
        invariant
            i <= x@.len(),
            i <= y@.len(),
            precedes(x@.skip(i as int), y@.skip(i as int)) == precedes(a@, b@),
        decreases x@.len() - i,
    {
        if x[i] != y[i] {
            return (x[i] as u32) < (y[i] as u32);
        }
        proof {
            assert(x@.skip(i as int).drop_first() =~= x@.skip(i + 1));
            assert(y@.skip(i as int).drop_first() =~= y@.skip(i + 1));
        }
        i = i + 1;
    }
    i < y.len()
}

/// Appends the decimal spelling of `n`.
pub fn push_decimal(s: &mut String, n: u64)
    ensures
        final(s)@ == old(s)@ + decimal(n as nat),
    decreases n,
{
    if n >= 10 {
        push_decimal(s, n / 10);
    }
    push_char(s, (48 + (n % 10) as u8) as char);
    proof {
        assert(s@ =~= old(s)@ + decimal(n as nat));
    }
}

/// Appends the last `width` hexadecimal digits of `n`, upper-case.
pub fn push_hex(s: &mut String, n: u32, width: u32)
    ensures
        final(s)@ == old(s)@ + hex_digits(n as nat, width as nat),
    decreases width,
{
    if width > 0 {
        push_hex(s, n / 16, width - 1);
        let d: u8 = (n % 16) as u8;
        let c: char = if d < 10 {
            (48 + d) as char
        } else {
            (55 + d) as char
        };
        push_char(s, c);
    }
    proof {
        assert(s@ =~= old(s)@ + hex_digits(n as nat, width as nat));
    }
}

/// The decimal spelling of `n`.
pub fn decimal_string(n: u64) -> (s: String)
    ensures
        s@ == decimal(n as nat),
{
    let mut s = String::new();
    push_decimal(&mut s, n);
    proof {
        assert(s@ =~= decimal(n as nat));
    }
    s
}

/// Appends `t` to `s`.
pub fn push_text(s: &mut String, t: &str)
    ensures
        final(s)@ == old(s)@ + t@,
{
    s.append(t);
}

/// Appends `t` to a list of strings.
pub fn push_string(v: &mut Vec<String>, t: &str)
    ensures
        texts(final(v)@) == texts(old(v)@).push(t@),
{
    v.push(t.to_owned());
    proof {
        assert(texts(v@) =~= texts(old(v)@).push(t@));
    }
}

/// Whether a list of strings holds `t`.
pub fn holds_text(v: &Vec<String>, t: &str) -> (r: bool)
    ensures
        r == texts(v@).contains(t@),
{
    let mut i: usize = 0;
    while i < v.len()
        invariant
            i <= v@.len(),
            forall|j: int| 0 <= j < i ==> texts(v@)[j] != t@,
        decreases v@.len() - i,
    {
        if same(v[i].as_str(), t) {
            assert(texts(v@)[i as int] == t@);
            return true;
        }
        i = i + 1;
    }
    false
}

// ── Laws ───────────────────────────────────────────────────────────

/// What has `t` in its middle, holds it.
pub proof fn law_occurs_means_surrounded(s: Seq<char>, a: Seq<char>, t: Seq<char>, b: Seq<char>)
    requires
        s == a + t + b,
    ensures
        occurs(s, t),
{
    assert(s.subrange(a.len() as int, (a.len() + t.len()) as int) =~= t);
    assert(occurs_at(s, t, a.len() as int));
}

/// What holds `t`, has it in its middle.
pub proof fn law_occurrence(s: Seq<char>, t: Seq<char>)
    requires
        occurs(s, t),
    ensures
        exists|i: int|
            0 <= i && i + t.len() <= s.len() && s == #[trigger] s.take(i) + t + s.skip(
                i + t.len(),
            ),
{
    let i = choose|i: int| occurs_at(s, t, i);
    assert(s =~= s.take(i) + t + s.skip(i + t.len()));
}

/// A text starts with what stands in front, and taking that away leaves the
/// rest; it starts with nothing else.
pub proof fn law_starts(s: Seq<char>, t: Seq<char>, rest: Seq<char>)
    ensures
        starts(t + rest, t),
        after_prefix(t + rest, t) == rest,
        starts(s, t) ==> s == t + after_prefix(s, t),
{
    assert((t + rest).subrange(0, t.len() as int) =~= t);
    assert(after_prefix(t + rest, t) =~= rest);
    if starts(s, t) {
        assert(s =~= s.subrange(0, t.len() as int) + after_prefix(s, t));
    }
}

/// A text ends with what stands at its back, and with nothing else.
pub proof fn law_ends(s: Seq<char>, t: Seq<char>, front: Seq<char>)
    ensures
        ends(front + t, t),
        ends(s, t) ==> t.len() <= s.len() && s == s.take(s.len() - t.len()) + t,
{
    assert((front + t).subrange(front.len() as int, (front + t).len() as int) =~= t);
    if ends(s, t) {
        assert(s =~= s.take(s.len() - t.len()) + s.subrange(s.len() - t.len(), s.len() as int));
    }
}

/// The number that decimal digits spell.
pub open spec fn decimal_value(s: Seq<char>) -> int
    decreases s.len(),
{
    if s.len() == 0 {
        0
    } else {
        10 * decimal_value(s.drop_last()) + (s.last() as u32 - '0' as u32)
    }
}

/// The decimal spelling of a number consists of digits, does not start with a
/// superfluous zero, and spells the number.
pub proof fn law_decimal_spells(n: nat)
    ensures
        decimal_value(decimal(n)) == n,
        decimal(n).len() >= 1,
        forall|i: int| 0 <= i < decimal(n).len() ==> '0' <= #[trigger] decimal(n)[i] <= '9',
        n > 0 ==> decimal(n)[0] != '0',
    decreases n,
{
    reveal_with_fuel(decimal_value, 2);
    if n < 10 {
        assert(decimal(n).drop_last() =~= Seq::<char>::empty());
    } else {
        law_decimal_spells(n / 10);
        assert(decimal(n).drop_last() =~= decimal(n / 10));
        assert forall|i: int| 0 <= i < decimal(n).len() implies '0' <= #[trigger] decimal(n)[i]
            <= '9' by {
            if i < decimal(n / 10).len() {
                assert(decimal(n)[i] == decimal(n / 10)[i]);
            }
        }
        assert(decimal(n)[0] == decimal(n / 10)[0]);
    }
}

/// The number that upper-case hexadecimal digits spell.
pub open spec fn hex_value(s: Seq<char>) -> int
    decreases s.len(),
{
    if s.len() == 0 {
        0
    } else {
        16 * hex_value(s.drop_last()) + if s.last() <= '9' {
            s.last() as u32 - '0' as u32
        } else {
            s.last() as u32 - 'A' as u32 + 10
        }
    }
}

/// 16 to the power of `n`.
pub open spec fn pow16(n: nat) -> int
    decreases n,
{
    if n == 0 {
        1
    } else {
        16 * pow16((n - 1) as nat)
    }
}

/// The hexadecimal spelling of a number has the width asked for, consists of
/// digits and upper-case letters, and spells the number where it fits.
pub proof fn law_hex_spells(n: nat, width: nat)
    requires
        n < pow16(width),
    ensures
        hex_value(hex_digits(n, width)) == n,
        hex_digits(n, width).len() == width,
        forall|i: int|
            0 <= i < width ==> {
                ||| '0' <= #[trigger] hex_digits(n, width)[i] <= '9'
                ||| 'A' <= hex_digits(n, width)[i] <= 'F'
            },
    decreases width,
{
    reveal_with_fuel(hex_value, 2);
    if width > 0 {
        let w = (width - 1) as nat;
        assert(n / 16 < pow16(w)) by (nonlinear_arith)
            requires
                n < 16 * pow16(w),
        ;
        law_hex_spells(n / 16, w);
        let all = hex_digits(n, width);
        assert(all.drop_last() =~= hex_digits(n / 16, w));
        assert forall|i: int| 0 <= i < width implies ('0' <= #[trigger] all[i] <= '9' || 'A'
            <= all[i] <= 'F') by {
            if i < w {
                assert(all[i] == hex_digits(n / 16, w)[i]);
            }
        }
    }
}

/// Lowering changes the letters A to Z to a to z and nothing else.
pub proof fn law_lowered(s: Seq<char>, i: int)
    requires
        0 <= i < s.len(),
    ensures
        lowered(s).len() == s.len(),
        'A' <= s[i] <= 'Z' ==> lowered(s)[i] as u32 - 'a' as u32 == s[i] as u32 - 'A' as u32,
        !('A' <= s[i] <= 'Z') ==> lowered(s)[i] == s[i],
        lowered(lowered(s)) == lowered(s),
{
    assert(lowered(lowered(s)) =~= lowered(s));
}

/// The characters that count as white space: among the ASCII ones the space,
/// the tab, the line feed, the vertical tab, the form feed and the carriage
/// return; above them only those that Unicode names.
pub proof fn law_white_space(c: char)
    ensures
        (c as u32) < 0x80 ==> (is_space(c) <==> seq![
            0x20u32,
            0x09,
            0x0A,
            0x0B,
            0x0C,
            0x0D,
        ].contains(c as u32)),
        c as u32 >= 0x80 ==> (is_space(c) <==> seq![
            0x85u32,
            0xA0,
            0x1680,
            0x2000,
            0x2001,
            0x2002,
            0x2003,
            0x2004,
            0x2005,
            0x2006,
            0x2007,
            0x2008,
            0x2009,
            0x200A,
            0x2028,
            0x2029,
            0x202F,
            0x205F,
            0x3000,
        ].contains(c as u32)),
{
    let a = seq![0x20u32, 0x09, 0x0A, 0x0B, 0x0C, 0x0D];
    assert(a[0] == 0x20 && a[1] == 9 && a[2] == 10 && a[3] == 11 && a[4] == 12 && a[5] == 13);
    let b = seq![
        0x85u32,
        0xA0,
        0x1680,
        0x2000,
        0x2001,
        0x2002,
        0x2003,
        0x2004,
        0x2005,
        0x2006,
        0x2007,
        0x2008,
        0x2009,
        0x200A,
        0x2028,
        0x2029,
        0x202F,
        0x205F,
        0x3000,
    ];
    assert(b[0] == 0x85 && b[1] == 0xA0 && b[2] == 0x1680 && b[3] == 0x2000 && b[4] == 0x2001);
    assert(b[5] == 0x2002 && b[6] == 0x2003 && b[7] == 0x2004 && b[8] == 0x2005 && b[9] == 0x2006);
    assert(b[10] == 0x2007 && b[11] == 0x2008 && b[12] == 0x2009 && b[13] == 0x200A);
    assert(b[14] == 0x2028 && b[15] == 0x2029 && b[16] == 0x202F && b[17] == 0x205F);
    assert(b[18] == 0x3000);
}

/// Whether `s` holds nothing but white space.
pub open spec fn blank(s: Seq<char>) -> bool {
    forall|i: int| 0 <= i < s.len() ==> is_space(#[trigger] s[i])
}

/// Whether `s` holds no white space.
pub open spec fn unbroken(s: Seq<char>) -> bool {
    forall|i: int| 0 <= i < s.len() ==> !is_space(#[trigger] s[i])
}

proof fn lemma_trimmed_start_of(a: Seq<char>, t: Seq<char>)
    requires
        blank(a),
        t.len() > 0 ==> !is_space(t[0]),
    ensures
        trimmed_start(a + t) == t,
    decreases a.len(),
{
    let s = a + t;
    if a.len() > 0 {
        assert(s[0] == a[0]);
        assert(s.drop_first() =~= a.drop_first() + t);
        assert forall|i: int| 0 <= i < a.drop_first().len() implies is_space(
            #[trigger] a.drop_first()[i],
        ) by {
            assert(a.drop_first()[i] == a[i + 1]);
        }
        lemma_trimmed_start_of(a.drop_first(), t);
    } else {
        assert(s =~= t);
    }
}

proof fn lemma_trimmed_end_of(t: Seq<char>, b: Seq<char>)
    requires
        blank(b),
        t.len() > 0 ==> !is_space(t.last()),
    ensures
        trimmed_end(t + b) == t,
    decreases b.len(),
{
    let s = t + b;
    if b.len() > 0 {
        assert(s.last() == b.last());
        assert(s.drop_last() =~= t + b.drop_last());
        lemma_trimmed_end_of(t, b.drop_last());
    } else {
        assert(s =~= t);
    }
}

/// Trimming takes away the white space at both ends and nothing else.
pub proof fn law_trimmed(a: Seq<char>, t: Seq<char>, b: Seq<char>)
    requires
        blank(a),
        blank(b),
        t.len() > 0 ==> !is_space(t[0]) && !is_space(t.last()),
    ensures
        trimmed(a + t + b) == t,
{
    assert(a + t + b =~= a + (t + b));
    if t.len() > 0 {
        assert((t + b)[0] == t[0]);
        lemma_trimmed_start_of(a, t + b);
    } else {
        assert(a + t + b =~= (a + b) + Seq::<char>::empty());
        assert(blank(a + b));
        lemma_trimmed_start_of(a + b, Seq::empty());
    }
    lemma_trimmed_end_of(t, b);
}

proof fn lemma_word_len_is(s: Seq<char>, i: int, n: int)
    requires
        0 <= i <= n <= s.len(),
        forall|j: int| i <= j < n ==> !is_space(#[trigger] s[j]),
        n < s.len() ==> is_space(s[n]),
    ensures
        word_len(s, i) == n,
    decreases n - i,
{
    if i < n {
        assert(!is_space(s[i]));
        lemma_word_len_is(s, i + 1, n);
    }
}

/// Behind its leading white space the first word of a text runs up to the next
/// white space; the other words are those of what follows. A blank text has
/// none.
pub proof fn law_words(a: Seq<char>, word: Seq<char>, c: char, rest: Seq<char>)
    requires
        blank(a),
        unbroken(word),
        word.len() > 0,
        is_space(c),
    ensures
        words(a) == Seq::<Seq<char>>::empty(),
        words(a + word) == seq![word],
        words(a + word + seq![c] + rest) == seq![word] + words(seq![c] + rest),
        words(seq![c] + rest) == words(rest),
{
    lemma_trimmed_start_of(a, Seq::empty());
    assert(a + Seq::<char>::empty() =~= a);
    assert(words(a) =~= Seq::<Seq<char>>::empty());
    assert(!is_space(word[0]));
    lemma_trimmed_start_of(a, word);
    lemma_word_len_is(word, 0, word.len() as int);
    let n = word.len() as int;
    assert(word.subrange(0, n) =~= word);
    assert(word.subrange(n, n) =~= Seq::<char>::empty());
    assert(trimmed_start(Seq::<char>::empty()) =~= Seq::<char>::empty());
    assert(words(Seq::<char>::empty()) =~= Seq::<Seq<char>>::empty());
    assert(words(a + word) =~= seq![word]);
    let tail = seq![c] + rest;
    let t = word + tail;
    assert(a + word + seq![c] + rest =~= a + t);
    assert(t[0] == word[0]);
    lemma_trimmed_start_of(a, t);
    assert forall|j: int| 0 <= j < n implies !is_space(#[trigger] t[j]) by {
        assert(t[j] == word[j]);
    }
    assert(t[n] == tail[0]);
    lemma_word_len_is(t, 0, n);
    assert(t.subrange(0, n) =~= word);
    assert(t.subrange(n, t.len() as int) =~= tail);
    assert(tail[0] == c);
    assert(tail.drop_first() =~= rest);
    assert(trimmed_start(tail) == trimmed_start(rest));
    lemma_words_trimmed(tail);
    lemma_words_trimmed(rest);
}

/// A text without the separator is one piece; a separator ends the first piece
/// and the others are those of what follows it.
pub proof fn law_split(a: Seq<char>, c: char, rest: Seq<char>)
    requires
        !a.contains(c),
    ensures
        split(a, c) == seq![a],
        split(a + seq![c] + rest, c) == seq![a] + split(rest, c),
{
    lemma_find(a, c, 0);
    let s = a + seq![c] + rest;
    lemma_find(s, c, 0);
    let n = a.len() as int;
    assert(s[n] == c);
    let i = find(s, c, 0);
    if i < n {
        assert(s[i] == a[i]);
        assert(a.contains(c));
    }
    assert(s.subrange(0, n) =~= a);
    assert(s.subrange(n + 1, s.len() as int) =~= rest);
    if find(a, c, 0) < n {
        assert(a.contains(c));
    }
}

/// A line feed ends the first line, a carriage return in front of it belongs
/// to neither line, and the other lines are those of what follows. What is
/// left without a line feed is a line if it is not empty.
pub proof fn law_lines(a: Seq<char>, rest: Seq<char>)
    requires
        !a.contains('\n'),
    ensures
        lines(a + seq!['\r', '\n'] + rest) == seq![a] + lines(rest),
        a.len() == 0 || a.last() != '\r' ==> lines(a + seq!['\n'] + rest) == seq![a] + lines(rest),
        a.len() > 0 ==> lines(a) == seq![a],
        lines(Seq::<char>::empty()) == Seq::<Seq<char>>::empty(),
{
    let n = a.len() as int;
    lemma_find(a, '\n', 0);
    if find(a, '\n', 0) < n {
        assert(a.contains('\n'));
    }
    let s = a + seq!['\n'] + rest;
    lemma_find(s, '\n', 0);
    assert(s[n] == '\n');
    let i = find(s, '\n', 0);
    if i < n {
        assert(s[i] == a[i]);
        assert(a.contains('\n'));
    }
    assert(s.subrange(0, n) =~= a);
    assert(s.subrange(n + 1, s.len() as int) =~= rest);
    let t = a + seq!['\r', '\n'] + rest;
    lemma_find(t, '\n', 0);
    assert(t[n] == '\r');
    assert(t[n + 1] == '\n');
    let j = find(t, '\n', 0);
    if j < n {
        assert(t[j] == a[j]);
        assert(a.contains('\n'));
    }
    assert(j == n + 1);
    assert(t.subrange(0, n + 1) =~= a.push('\r'));
    assert(a.push('\r').drop_last() =~= a);
    assert(t.subrange(n + 2, t.len() as int) =~= rest);
}

/// One text comes before another if it is a proper beginning of it, or has the
/// smaller character where they first differ.
pub proof fn law_precedes(a: Seq<char>, b: Seq<char>, i: int)
    requires
        0 <= i <= a.len(),
        i <= b.len(),
        a.take(i) == b.take(i),
    ensures
        i == a.len() && i < b.len() ==> precedes(a, b),
        i == b.len() ==> !precedes(a, b),
        i < a.len() && i < b.len() && (a[i] as u32) < (b[i] as u32) ==> precedes(a, b),
        i < a.len() && i < b.len() && (a[i] as u32) > (b[i] as u32) ==> !precedes(a, b),
    decreases i,
{
    if i > 0 {
        assert(a[0] == a.take(i)[0] && b[0] == b.take(i)[0]);
        let x = a.drop_first();
        let y = b.drop_first();
        assert(x.take(i - 1) =~= a.take(i).drop_first());
        assert(y.take(i - 1) =~= b.take(i).drop_first());
        law_precedes(x, y, i - 1);
        if i < a.len() && i < b.len() {
            assert(x[i - 1] == a[i] && y[i - 1] == b[i]);
        }
    }
}

} // verus!
