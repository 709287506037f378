//! Byte-string helpers shared by the parsers and the naming rules.
//!
//! Text is modelled as a sequence of bytes. The literals that the rules
//! mention are ASCII, so a literal's bytes are its characters' codes.

use vstd::prelude::*;
use vstd::seq_lib::to_multiset_insert;
use vstd::string::*;

verus! {

/// The bytes of an ASCII text: each character's code, in order.
pub open spec fn lit(s: Seq<char>) -> Seq<u8> {
    Seq::new(s.len(), |i: int| s[i] as u8)
}

/// Borrows the bytes of an ASCII string.
pub fn ascii_bytes(s: &str) -> (r: &[u8])
    requires
        is_ascii(s),
    ensures
        r@ == lit(s@),
{
    broadcast use is_ascii_spec_bytes;

    s.as_bytes()
}

/// `needle` stands in `hay` at offset `at`.
pub open spec fn occurs_at(hay: Seq<u8>, needle: Seq<u8>, at: int) -> bool {
    &&& 0 <= at
    &&& at + needle.len() <= hay.len()
    &&& hay.subrange(at, at + needle.len()) == needle
}

/// `needle` stands somewhere in `hay`.
pub open spec fn contains_seq(hay: Seq<u8>, needle: Seq<u8>) -> bool {
    exists|at: int| occurs_at(hay, needle, at)
}

/// `at` is the leftmost offset at which `needle` stands in `hay`.
pub open spec fn is_first_occurrence(hay: Seq<u8>, needle: Seq<u8>, at: int) -> bool {
    &&& occurs_at(hay, needle, at)
    &&& forall|j: int| 0 <= j < at ==> !occurs_at(hay, needle, j)
}

/// The leftmost offset at which `needle` stands in `hay`, if it stands there
/// at all.
pub open spec fn first_occurrence(hay: Seq<u8>, needle: Seq<u8>) -> Option<int> {
    if contains_seq(hay, needle) {
        Some(choose|at: int| is_first_occurrence(hay, needle, at))
    } else {
        None
    }
}

/// A leftmost occurrence is the value of `first_occurrence`.
pub proof fn lemma_first_occurrence(hay: Seq<u8>, needle: Seq<u8>, at: int)
    requires
        is_first_occurrence(hay, needle, at),
    ensures
        first_occurrence(hay, needle) == Some(at),
{
    let c = choose|c: int| is_first_occurrence(hay, needle, c);
    assert(is_first_occurrence(hay, needle, c));
    if c < at {
        assert(!occurs_at(hay, needle, c));
    }
    if at < c {
        assert(!occurs_at(hay, needle, at));
    }
}

/// `first_occurrence` names a leftmost occurrence whenever it names one.
pub proof fn lemma_first_occurrence_is_first(hay: Seq<u8>, needle: Seq<u8>)
    ensures
        match first_occurrence(hay, needle) {
            Some(at) => is_first_occurrence(hay, needle, at),
            None => !contains_seq(hay, needle),
        },
{
    if contains_seq(hay, needle) {
        let w = choose|w: int| occurs_at(hay, needle, w);
        lemma_least_occurrence(hay, needle, w);
    }
}

/// Below any occurrence lies a leftmost one.
proof fn lemma_least_occurrence(hay: Seq<u8>, needle: Seq<u8>, w: int)
    requires
        occurs_at(hay, needle, w),
    ensures
        exists|at: int| is_first_occurrence(hay, needle, at),
    decreases w,
{
    if exists|j: int| 0 <= j < w && occurs_at(hay, needle, j) {
        let j = choose|j: int| 0 <= j < w && occurs_at(hay, needle, j);
        lemma_least_occurrence(hay, needle, j);
    } else {
        assert(is_first_occurrence(hay, needle, w));
    }
}

/// Tells whether `needle` stands in `hay` at offset `at`.
pub fn matches_at(hay: &[u8], needle: &[u8], at: usize) -> (r: bool)
    ensures
        r == occurs_at(hay@, needle@, at as int),
{
    if needle.len() > hay.len() || at > hay.len() - needle.len() {
        return false;
    }
    let mut k: usize = 0;
    while k < needle.len()
        invariant
            k <= needle.len(),
            at + needle.len() <= hay.len(),
            forall|j: int| 0 <= j < k ==> hay@[at + j] == needle@[j],
        decreases needle.len() - k,
    {
        if hay[at + k] != needle[k] {
            proof {
                let window = hay@.subrange(at as int, at + needle.len());
                assert(window[k as int] == hay@[at + k]);
            }
            return false;
        }
        k += 1;
    }
    proof {
        assert(hay@.subrange(at as int, at + needle.len()) =~= needle@);
    }
    true
}

/// Tells whether `s` begins with `prefix`.
pub fn starts_with(s: &[u8], prefix: &[u8]) -> (r: bool)
    ensures
        r == occurs_at(s@, prefix@, 0),
{
    matches_at(s, prefix, 0)
}

/// `suffix` stands at the end of `s`.
pub open spec fn ends_with_seq(s: Seq<u8>, suffix: Seq<u8>) -> bool {
    occurs_at(s, suffix, s.len() - suffix.len())
}

/// Tells whether `s` ends with `suffix`.
pub fn ends_with(s: &[u8], suffix: &[u8]) -> (r: bool)
    ensures
        r == ends_with_seq(s@, suffix@),
{
    if suffix.len() > s.len() {
        return false;
    }
    matches_at(s, suffix, s.len() - suffix.len())
}

/// Finds the leftmost occurrence of `needle` in `hay`.
pub fn find(hay: &[u8], needle: &[u8]) -> (r: Option<usize>)
    ensures
        match r {
            Some(at) => first_occurrence(hay@, needle@) == Some(at as int),
            None => first_occurrence(hay@, needle@).is_none(),
        },
{
    if needle.len() > hay.len() {
        return None;
    }
    let last: usize = hay.len() - needle.len();
    let mut at: usize = 0;
    while at < last
        invariant
            last == hay.len() - needle.len(),
            at <= last,
            forall|j: int| 0 <= j < at ==> !occurs_at(hay@, needle@, j),
        decreases last - at,
    {
        if matches_at(hay, needle, at) {
            proof {
                lemma_first_occurrence(hay@, needle@, at as int);
            }
            return Some(at);
        }
        at += 1;
    }
    if matches_at(hay, needle, last) {
        proof {
            lemma_first_occurrence(hay@, needle@, last as int);
        }
        return Some(last);
    }
    None
}

/// Tells whether `needle` stands somewhere in `hay`.
pub fn contains(hay: &[u8], needle: &[u8]) -> (r: bool)
    ensures
        r == contains_seq(hay@, needle@),
{
    find(hay, needle).is_some()
}

/// The offset of the first byte equal to `b`, if there is one.
pub open spec fn first_byte(s: Seq<u8>, b: u8) -> Option<int> {
    first_occurrence(s, seq![b])
}

/// Finds the first byte equal to `b`.
pub fn find_byte(s: &[u8], b: u8) -> (r: Option<usize>)
    ensures
        match r {
            Some(at) => first_byte(s@, b) == Some(at as int) && at < s.len() && s@[at as int] == b,
            None => first_byte(s@, b).is_none() && !s@.contains(b),
        },
{
    let mut at: usize = 0;
    while at < s.len()
        invariant
            at <= s.len(),
            forall|j: int| 0 <= j < at ==> s@[j] != b,
        decreases s.len() - at,
    {
        if s[at] == b {
            proof {
                assert(s@.subrange(at as int, at + 1) =~= seq![b]);
                assert forall|j: int| 0 <= j < at implies !occurs_at(s@, seq![b], j) by {
                    if occurs_at(s@, seq![b], j) {
                        assert(s@.subrange(j, j + 1)[0] == b);
                    }
                }
                lemma_first_occurrence(s@, seq![b], at as int);
            }
            return Some(at);
        }
        at += 1;
    }
    proof {
        if contains_seq(s@, seq![b]) {
            let w = choose|w: int| occurs_at(s@, seq![b], w);
            assert(s@.subrange(w, w + 1)[0] == b);
        }
    }
    None
}

/// A byte with an upper-case ASCII letter turned to lower case.
pub open spec fn lower_byte(b: u8) -> u8 {
    if 0x41 <= b <= 0x5a {
        (b + 0x20) as u8
    } else {
        b
    }
}

/// A text with its upper-case ASCII letters turned to lower case.
pub open spec fn lower_of(s: Seq<u8>) -> Seq<u8> {
    Seq::new(s.len(), |i: int| lower_byte(s[i]))
}

/// Copies `s` with its upper-case ASCII letters turned to lower case.
pub fn to_ascii_lowercase(s: &[u8]) -> (r: Vec<u8>)
    ensures
        r@ == lower_of(s@),
{
    let mut out: Vec<u8> = Vec::new();
    let mut i: usize = 0;
    while i < s.len()
        invariant
            i <= s.len(),
            out@ == lower_of(s@.subrange(0, i as int)),
        decreases s.len() - i,
    {
        let b: u8 = s[i];
        let low: u8 = if 0x41 <= b && b <= 0x5a { b + 0x20 } else { b };
        out.push(low);
        proof {
            assert(out@ =~= lower_of(s@.subrange(0, i + 1)));
        }
        i += 1;
    }
    proof {
        assert(s@.subrange(0, s.len() as int) =~= s@);
    }
    out
}

/// Copies the bytes of `s` from `from` up to `to`.
pub fn copy_range(s: &[u8], from: usize, to: usize) -> (r: Vec<u8>)
    requires
        from <= to <= s.len(),
    ensures
        r@ == s@.subrange(from as int, to as int),
{
    let mut out: Vec<u8> = Vec::new();
    let mut i: usize = from;
    while i < to
        invariant
            from <= i <= to,
            to <= s.len(),
            out@ == s@.subrange(from as int, i as int),
        decreases to - i,
    {
        out.push(s[i]);
        proof {
            assert(out@ =~= s@.subrange(from as int, i + 1));
        }
        i += 1;
    }
    out
}

/// Tells whether two byte strings are equal.
pub fn bytes_eq(a: &[u8], b: &[u8]) -> (r: bool)
    ensures
        r == (a@ == b@),
{
    if a.len() != b.len() {
        return false;
    }
    let r = matches_at(a, b, 0);
    proof {
        assert(a@.subrange(0, a.len() as int) =~= a@);
    }
    r
}

/// The part of `s` before its first byte equal to `b`; all of `s` if it has none.
pub open spec fn before_byte(s: Seq<u8>, b: u8) -> Seq<u8> {
    match first_byte(s, b) {
        Some(at) => s.subrange(0, at),
        None => s,
    }
}

/// White space: the space and the control characters from tab to carriage
/// return.
pub open spec fn is_space(b: u8) -> bool {
    b == 0x20 || (0x09 <= b <= 0x0d)
}

/// Tells whether `b` is white space.
pub fn is_space_byte(b: u8) -> (r: bool)
    ensures
        r == is_space(b),
{
    b == 0x20 || (0x09 <= b && b <= 0x0d)
}

/// `s` without its leading white space.
pub open spec fn trim_start_of(s: Seq<u8>) -> Seq<u8>
    decreases s.len(),
{
    if s.len() > 0 && is_space(s[0]) {
        trim_start_of(s.drop_first())
    } else {
        s
    }
}

/// `s` without its trailing white space.
pub open spec fn trim_end_of(s: Seq<u8>) -> Seq<u8>
    decreases s.len(),
{
    if s.len() > 0 && is_space(s.last()) {
        trim_end_of(s.drop_last())
    } else {
        s
    }
}

/// `s` without leading and trailing white space.
pub open spec fn trim_of(s: Seq<u8>) -> Seq<u8> {
    trim_end_of(trim_start_of(s))
}

/// Finds the bounds of `s[from..to]` without its leading and trailing white
/// space.
pub fn trim_range(s: &[u8], from: usize, to: usize) -> (r: (usize, usize))
    requires
        from <= to <= s.len(),
    ensures
        from <= r.0 <= r.1 <= to,
        s@.subrange(r.0 as int, r.1 as int) == trim_of(s@.subrange(from as int, to as int)),
{
    let mut a: usize = from;
    while a < to && is_space_byte(s[a])
        invariant
            from <= a <= to,
            to <= s.len(),
            trim_start_of(s@.subrange(from as int, to as int)) == trim_start_of(
                s@.subrange(a as int, to as int),
            ),
        decreases to - a,
    {
        proof {
            assert(s@.subrange(a as int, to as int).drop_first() =~= s@.subrange(
                a + 1,
                to as int,
            ));
        }
        a += 1;
    }
    let mut b: usize = to;
    while a < b && is_space_byte(s[b - 1])
        invariant
            a <= b <= to,
            to <= s.len(),
            trim_start_of(s@.subrange(from as int, to as int)) == s@.subrange(a as int, to as int),
            trim_of(s@.subrange(from as int, to as int)) == trim_end_of(
                s@.subrange(a as int, b as int),
            ),
        decreases b - a,
    {
        proof {
            assert(s@.subrange(a as int, b as int).drop_last() =~= s@.subrange(
                a as int,
                b - 1,
            ));
        }
        b -= 1;
    }
    (a, b)
}

/// The pieces of `s` between the bytes equal to `sep`, read from the left:
/// each `sep` closes the piece in progress and opens a new, empty one.
pub open spec fn split_on(s: Seq<u8>, sep: u8) -> Seq<Seq<u8>>
    decreases s.len(),
{
    if s.len() == 0 {
        seq![Seq::<u8>::empty()]
    } else {
        let prev = split_on(s.drop_last(), sep);
        if s.last() == sep {
            prev.push(Seq::<u8>::empty())
        } else {
            prev.update(prev.len() - 1, prev.last().push(s.last()))
        }
    }
}

/// A split has at least one piece.
pub proof fn lemma_split_nonempty(s: Seq<u8>, sep: u8)
    ensures
        split_on(s, sep).len() >= 1,
        split_on(s, sep).len() <= s.len() + 1,
    decreases s.len(),
{
    if s.len() > 0 {
        lemma_split_nonempty(s.drop_last(), sep);
    }
}

/// The views of a list of byte strings.
pub open spec fn views(v: Seq<Vec<u8>>) -> Seq<Seq<u8>> {
    Seq::new(v.len(), |i: int| v[i]@)
}

/// Splits `s` at each byte equal to `sep`.
pub fn split(s: &[u8], sep: u8) -> (r: Vec<Vec<u8>>)
    ensures
        views(r@) == split_on(s@, sep),
{
    let mut done: Vec<Vec<u8>> = Vec::new();
    let mut cur: Vec<u8> = Vec::new();
    let mut i: usize = 0;
    while i < s.len()
        invariant
            i <= s.len(),
            views(done@).push(cur@) == split_on(s@.subrange(0, i as int), sep),
        decreases s.len() - i,
    {
        proof {
            assert(s@.subrange(0, i + 1).drop_last() =~= s@.subrange(0, i as int));
        }
        let ghost before = views(done@).push(cur@);
        if s[i] == sep {
            done.push(cur);
            cur = Vec::new();
            proof {
                assert(views(done@).push(cur@) =~= before.push(Seq::<u8>::empty()));
            }
        } else {
            cur.push(s[i]);
            proof {
                assert(views(done@).push(cur@) =~= before.update(
                    before.len() - 1,
                    before.last().push(s@[i as int]),
                ));
            }
        }
        i += 1;
    }
    proof {
        assert(s@.subrange(0, s.len() as int) =~= s@);
    }
    let ghost before = views(done@).push(cur@);
    done.push(cur);
    proof {
        assert(views(done@) =~= before);
    }
    done
}

/// The state of a left-to-right scan for words: the words closed so far and
/// the run of non-space bytes in progress.
pub open spec fn words_scan(s: Seq<u8>) -> (Seq<Seq<u8>>, Seq<u8>)
    decreases s.len(),
{
    if s.len() == 0 {
        (Seq::<Seq<u8>>::empty(), Seq::<u8>::empty())
    } else {
        let prev = words_scan(s.drop_last());
        if is_space(s.last()) {
            if prev.1.len() > 0 {
                (prev.0.push(prev.1), Seq::<u8>::empty())
            } else {
                prev
            }
        } else {
            (prev.0, prev.1.push(s.last()))
        }
    }
}

/// The maximal runs of non-space bytes of `s`, in order.
pub open spec fn words_of(s: Seq<u8>) -> Seq<Seq<u8>> {
    let scan = words_scan(s);
    if scan.1.len() > 0 {
        scan.0.push(scan.1)
    } else {
        scan.0
    }
}

/// Splits `s` into its maximal runs of non-space bytes.
pub fn split_words(s: &[u8]) -> (r: Vec<Vec<u8>>)
    ensures
        views(r@) == words_of(s@),
{
    let mut done: Vec<Vec<u8>> = Vec::new();
    let mut cur: Vec<u8> = Vec::new();
    let mut i: usize = 0;
    while i < s.len()
        invariant
            i <= s.len(),
            (views(done@), cur@) == words_scan(s@.subrange(0, i as int)),
        decreases s.len() - i,
    {
        proof {
            assert(s@.subrange(0, i + 1).drop_last() =~= s@.subrange(0, i as int));
        }
        let ghost before = views(done@);
        if is_space_byte(s[i]) {
            if cur.len() > 0 {
                let ghost word = cur@;
                done.push(cur);
                cur = Vec::new();
                proof {
                    assert(views(done@) =~= before.push(word));
                }
            }
        } else {
            cur.push(s[i]);
        }
        i += 1;
    }
    proof {
        assert(s@.subrange(0, s.len() as int) =~= s@);
    }
    if cur.len() > 0 {
        let ghost before = views(done@);
        let ghost word = cur@;
        done.push(cur);
        proof {
            assert(views(done@) =~= before.push(word));
        }
    }
    done
}

/// The character of a decimal digit.
pub open spec fn digit_byte(d: int) -> u8 {
    (0x30 + d) as u8
}

/// A number written in decimal, without leading zeros.
pub open spec fn decimal_of(n: nat) -> Seq<u8>
    decreases n,
{
    if n < 10 {
        seq![digit_byte(n as int)]
    } else {
        decimal_of(n / 10).push(digit_byte((n % 10) as int))
    }
}

/// A number written in decimal with zeros in front up to `width` digits; a
/// longer number is written in full.
pub open spec fn zero_padded(n: nat, width: nat) -> Seq<u8> {
    let digits = decimal_of(n);
    if digits.len() >= width {
        digits
    } else {
        Seq::new((width - digits.len()) as nat, |i: int| 0x30u8) + digits
    }
}

/// Appends a number in decimal.
pub fn push_decimal(out: &mut Vec<u8>, n: u64)
    ensures
        final(out)@ == old(out)@ + decimal_of(n as nat),
    decreases n,
{
    if n >= 10 {
        push_decimal(out, n / 10);
    }
    out.push(0x30 + (n % 10) as u8);
    proof {
        assert(out@ =~= old(out)@ + decimal_of(n as nat));
    }
}

/// Appends a number in decimal, with zeros in front up to `width` digits.
pub fn push_zero_padded(out: &mut Vec<u8>, n: u64, width: usize)
    ensures
        final(out)@ == old(out)@ + zero_padded(n as nat, width as nat),
{
    let mut digits: Vec<u8> = Vec::new();
    push_decimal(&mut digits, n);
    proof {
        assert(digits@ =~= decimal_of(n as nat));
    }
    let mut k: usize = digits.len();
    while k < width
        invariant
            digits.len() <= k,
            k <= width || k == digits.len(),
            digits@ == decimal_of(n as nat),
            out@ == old(out)@ + Seq::new((k - digits.len()) as nat, |i: int| 0x30u8),
        decreases width - k,
    {
        out.push(0x30);
        proof {
            assert(out@ =~= old(out)@ + Seq::new((k + 1 - digits.len()) as nat, |i: int| 0x30u8));
        }
        k += 1;
    }
    out.extend_from_slice(digits.as_slice());
    proof {
        assert(out@ =~= old(out)@ + zero_padded(n as nat, width as nat));
    }
}

/// Appends an ASCII text.
pub fn push_text(out: &mut Vec<u8>, s: &str)
    requires
        is_ascii(s),
    ensures
        final(out)@ == old(out)@ + lit(s@),
{
    out.extend_from_slice(ascii_bytes(s));
}

/// The number that decimal digits write.
pub open spec fn decimal_value(s: Seq<u8>) -> int
    decreases s.len(),
{
    if s.len() == 0 {
        0
    } else {
        decimal_value(s.drop_last()) * 10 + (s.last() - 0x30)
    }
}

/// A number written in decimal reads back as itself.
pub proof fn lemma_decimal_round_trip(n: nat)
    ensures
        decimal_value(decimal_of(n)) == n,
        decimal_of(n).len() >= 1,
    decreases n,
{
    let s = decimal_of(n);
    if n < 10 {
        assert(s.drop_last() =~= Seq::<u8>::empty());
        assert(decimal_value(s.drop_last()) == 0);
        assert(s.last() == ((0x30 + n) as u8));
        assert(s.last() - 0x30 == n);
    } else {
        lemma_decimal_round_trip(n / 10);
        assert(s.drop_last() =~= decimal_of(n / 10));
        assert(s.last() == ((0x30 + n % 10) as u8));
        assert(s.last() - 0x30 == n % 10);
        assert(decimal_value(s) == decimal_value(s.drop_last()) * 10 + (s.last() - 0x30));
    }
}

/// Two numbers written alike in decimal are the same number.
pub proof fn lemma_decimal_injective(a: nat, b: nat)
    requires
        decimal_of(a) == decimal_of(b),
    ensures
        a == b,
{
    lemma_decimal_round_trip(a);
    lemma_decimal_round_trip(b);
}

/// The order of a dictionary on byte strings: the first byte that differs
/// decides, and a text comes before its extensions.
pub open spec fn lex_le(a: Seq<u8>, b: Seq<u8>) -> bool
    decreases a.len(),
{
    if a.len() == 0 {
        true
    } else if b.len() == 0 {
        false
    } else if a[0] != b[0] {
        a[0] < b[0]
    } else {
        lex_le(a.drop_first(), b.drop_first())
    }
}

/// Of two texts one comes first.
pub proof fn lemma_lex_total(a: Seq<u8>, b: Seq<u8>)
    ensures
        lex_le(a, b) || lex_le(b, a),
    decreases a.len(),
{
    if a.len() > 0 && b.len() > 0 && a[0] == b[0] {
        lemma_lex_total(a.drop_first(), b.drop_first());
    }
}

/// What comes before a text comes before what follows it.
pub proof fn lemma_lex_transitive(a: Seq<u8>, b: Seq<u8>, c: Seq<u8>)
    requires
        lex_le(a, b),
        lex_le(b, c),
    ensures
        lex_le(a, c),
    decreases a.len(),
{
    if a.len() > 0 && b.len() > 0 && c.len() > 0 && a[0] == b[0] && b[0] == c[0] {
        lemma_lex_transitive(a.drop_first(), b.drop_first(), c.drop_first());
    }
}

/// Tells whether `a` comes before `b`, or is `b`.
pub fn bytes_le(a: &[u8], b: &[u8]) -> (r: bool)
    ensures
        r == lex_le(a@, b@),
{
    let mut i: usize = 0;
    proof {
        assert(a@.subrange(0, a.len() as int) =~= a@);
        assert(b@.subrange(0, b.len() as int) =~= b@);
    }
    while i < a.len() && i < b.len()
        invariant
            i <= a.len(),
            i <= b.len(),
            lex_le(a@, b@) == lex_le(
                a@.subrange(i as int, a.len() as int),
                b@.subrange(i as int, b.len() as int),
            ),
        decreases a.len() - i,
    {
        let ghost ra = a@.subrange(i as int, a.len() as int);
        let ghost rb = b@.subrange(i as int, b.len() as int);
        proof {
            assert(ra[0] == a@[i as int]);
            assert(rb[0] == b@[i as int]);
            assert(ra.drop_first() =~= a@.subrange(i + 1, a.len() as int));
            assert(rb.drop_first() =~= b@.subrange(i + 1, b.len() as int));
        }
        if a[i] != b[i] {
            return a[i] < b[i];
        }
        i += 1;
    }
    i == a.len()
}

/// Each text comes before those after it.
pub open spec fn sorted_names(s: Seq<Seq<u8>>) -> bool {
    forall|i: int, j: int| 0 <= i < j < s.len() ==> lex_le(#[trigger] s[i], #[trigger] s[j])
}

/// Puts texts in the order of a dictionary.
pub fn sort_names(names: Vec<Vec<u8>>) -> (r: Vec<Vec<u8>>)
    ensures
        sorted_names(views(r@)),
        views(r@).to_multiset() == views(names@).to_multiset(),
{
    let mut sorted: Vec<Vec<u8>> = Vec::new();
    let mut i: usize = 0;
    proof {
        assert(views(sorted@) =~= views(names@).subrange(0, 0));
    }
    while i < names.len()
        invariant
            i <= names.len(),
            sorted_names(views(sorted@)),
            sorted@.len() == i,
            views(sorted@).to_multiset() == views(names@).subrange(0, i as int).to_multiset(),
        decreases names.len() - i,
    {
        let item = copy_range(names[i].as_slice(), 0, names[i].len());
        proof {
            assert(item@ =~= names@[i as int]@);
        }
        let mut pos: usize = 0;
        while pos < sorted.len() && bytes_le(sorted[pos].as_slice(), item.as_slice())
            invariant
                pos <= sorted.len(),
                forall|k: int| 0 <= k < pos ==> lex_le(#[trigger] views(sorted@)[k], item@),
            decreases sorted.len() - pos,
        {
            pos += 1;
        }
        let ghost before = views(sorted@);
        let ghost text = item@;
        sorted.insert(pos, item);
        proof {
            let after = views(sorted@);
            assert(after =~= before.insert(pos as int, text));
            to_multiset_insert(before, pos as int, text);
            let seen = views(names@).subrange(0, i as int);
            let next = views(names@).subrange(0, i + 1);
            assert(next =~= seen.push(text));
            vstd::seq_lib::to_multiset_build(seen, text);
            assert forall|x: int, y: int| 0 <= x < y < after.len() implies lex_le(
                #[trigger] after[x],
                #[trigger] after[y],
            ) by {
                if y == pos {
                    assert(after[x] == before[x]);
                } else if x == pos {
                    assert(after[y] == before[y - 1]);
                    assert(!lex_le(before[pos as int], text));
                    lemma_lex_total(before[pos as int], text);
                    if y - 1 > pos {
                        assert(lex_le(before[pos as int], before[y - 1]));
                        lemma_lex_transitive(text, before[pos as int], before[y - 1]);
                    }
                } else {
                    let bx = if x < pos { x } else { x - 1 };
                    let by = if y < pos { y } else { y - 1 };
                    assert(after[x] == before[bx]);
                    assert(after[y] == before[by]);
                    assert(lex_le(before[bx], before[by]));
                }
            }
        }
        i += 1;
    }
    proof {
        assert(views(names@).subrange(0, names.len() as int) =~= views(names@));
    }
    sorted
}

/// A number below ten thousand takes as many digits as its size asks for,
/// so that padding to that width gives exactly that width.
pub proof fn lemma_padded_len(n: nat)
    ensures
        decimal_of(n).len() >= 1,
        n < 10 ==> decimal_of(n).len() == 1,
        n < 100 ==> zero_padded(n, 2).len() == 2,
        n < 1000 ==> zero_padded(n, 3).len() == 3,
        n < 10000 ==> zero_padded(n, 4).len() == 4,
    decreases n,
{
    if n >= 10 {
        lemma_padded_len(n / 10);
        if n >= 100 {
            lemma_padded_len(n / 10 / 10);
            if n >= 1000 {
                lemma_padded_len(n / 10 / 10 / 10);
            }
        }
    }
}

/// A common beginning does not change the order of two texts.
pub proof fn lemma_lex_common_prefix(p: Seq<u8>, x: Seq<u8>, y: Seq<u8>)
    ensures
        lex_le(p + x, p + y) == lex_le(x, y),
    decreases p.len(),
{
    if p.len() == 0 {
        assert(p + x =~= x);
        assert(p + y =~= y);
    } else {
        assert((p + x)[0] == p[0]);
        assert((p + y)[0] == p[0]);
        assert((p + x).drop_first() =~= p.drop_first() + x);
        assert((p + y).drop_first() =~= p.drop_first() + y);
        lemma_lex_common_prefix(p.drop_first(), x, y);
    }
}

/// A number below a hundred, padded to two digits, is its tens and its
/// units.
pub proof fn lemma_two_digits(n: nat)
    requires
        n < 100,
    ensures
        zero_padded(n, 2) == seq![digit_byte((n / 10) as int), digit_byte((n % 10) as int)],
{
    if n < 10 {
        assert(decimal_of(n) =~= seq![digit_byte(n as int)]);
        assert(zero_padded(n, 2) =~= seq![0x30u8, digit_byte(n as int)]);
    } else {
        assert(decimal_of(n / 10) =~= seq![digit_byte((n / 10) as int)]);
        assert(decimal_of(n) =~= seq![digit_byte((n / 10) as int), digit_byte((n % 10) as int)]);
    }
}

} // verus!
