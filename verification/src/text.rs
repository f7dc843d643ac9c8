//! Text as the contracts see it: sequences of characters, their order, the
//! whitespace around them, and decimal numerals.

use vstd::prelude::*;

verus! {

/// The characters of a string.
pub type Text = Seq<char>;

/// The views of a sequence of values.
pub open spec fn views<T: View>(s: Seq<T>) -> Seq<T::V> {
    Seq::new(s.len(), |i: int| s[i]@)
}

/// The view of a value that may be absent.
pub open spec fn opt_view<T: View>(o: Option<T>) -> Option<T::V> {
    match o {
        Some(x) => Some(x@),
        None => None,
    }
}

// ---------------------------------------------------------------------------
// Order
// ---------------------------------------------------------------------------

/// Lexicographic order by code point: `a` comes strictly before `b`.
pub open spec fn precedes(a: Text, b: Text) -> bool
    decreases a.len(),
{
    if b.len() == 0 {
        false
    } else if a.len() == 0 {
        true
    } else if a[0] != b[0] {
        a[0] < b[0]
    } else {
        precedes(a.drop_first(), b.drop_first())
    }
}

/// No text precedes itself.
pub proof fn lemma_precedes_irreflexive(a: Text)
    ensures
        !precedes(a, a),
    decreases a.len(),
{
    if a.len() > 0 {
        lemma_precedes_irreflexive(a.drop_first());
    }
}

/// Precedence carries over from one text to the next.
pub proof fn lemma_precedes_transitive(a: Text, b: Text, c: Text)
    requires
        precedes(a, b),
        precedes(b, c),
    ensures
        precedes(a, c),
    decreases a.len(),
{
    if a.len() > 0 && b.len() > 0 && c.len() > 0 && a[0] == b[0] && b[0] == c[0] {
        lemma_precedes_transitive(a.drop_first(), b.drop_first(), c.drop_first());
    }
}

/// Of two different texts one precedes the other.
pub proof fn lemma_precedes_total(a: Text, b: Text)
    ensures
        precedes(a, b) || a == b || precedes(b, a),
    decreases a.len(),
{
    if a.len() > 0 && b.len() > 0 {
        if a[0] == b[0] {
            lemma_precedes_total(a.drop_first(), b.drop_first());
            if a.drop_first() == b.drop_first() {
                assert(a =~= seq![a[0]] + a.drop_first());
                assert(b =~= seq![b[0]] + b.drop_first());
            }
        }
    } else if a.len() == 0 && b.len() == 0 {
        assert(a =~= b);
    }
}

/// A common prefix does not take part in the comparison.
proof fn lemma_precedes_skips_prefix(a: Text, b: Text, k: int)
    requires
        0 <= k <= a.len(),
        k <= b.len(),
        a.take(k) == b.take(k),
    ensures
        precedes(a, b) == precedes(a.skip(k), b.skip(k)),
    decreases k,
{
    if k == 0 {
        assert(a.skip(0) =~= a);
        assert(b.skip(0) =~= b);
    } else {
        assert(a[0] == a.take(k)[0] && b[0] == b.take(k)[0]);
        assert(a.drop_first().take(k - 1) =~= a.take(k).drop_first());
        assert(b.drop_first().take(k - 1) =~= b.take(k).drop_first());
        lemma_precedes_skips_prefix(a.drop_first(), b.drop_first(), k - 1);
        assert(a.drop_first().skip(k - 1) =~= a.skip(k));
        assert(b.drop_first().skip(k - 1) =~= b.skip(k));
    }
}

/// One text precedes another exactly where it stops first, or where the first
/// character in which they differ is the smaller one.
pub proof fn lemma_precedes_by_first_difference(a: Text, b: Text)
    ensures
        precedes(a, b) <==> (a.len() < b.len() && a == b.take(a.len() as int)) || exists|k: int|
            0 <= k < a.len() && k < b.len() && a.take(k) == b.take(k) && #[trigger] a[k] < b[k],
    decreases a.len(),
{
    if a.len() == 0 {
        assert(b.take(0) =~= a);
    } else if b.len() > 0 {
        if a[0] != b[0] {
            if a[0] < b[0] {
                assert(a.take(0) =~= b.take(0));
                assert(a[0] < b[0]);
            }
            if a.len() < b.len() && a == b.take(a.len() as int) {
                assert(a[0] == b.take(a.len() as int)[0]);
            }
            assert forall|k: int|
                0 <= k < a.len() && k < b.len() && a.take(k) == b.take(k) && #[trigger] a[k]
                    < b[k] implies a[0] < b[0] by {
                if k > 0 {
                    assert(a.take(k)[0] == b.take(k)[0]);
                }
            }
        } else {
            let x = a.drop_first();
            let y = b.drop_first();
            lemma_precedes_by_first_difference(x, y);
            if x.len() < y.len() && x == y.take(x.len() as int) {
                assert(a =~= b.take(a.len() as int)) by {
                    assert forall|i: int| 0 <= i < a.len() implies a[i] == b[i] by {
                        if i > 0 {
                            assert(x[i - 1] == y.take(x.len() as int)[i - 1]);
                        }
                    }
                }
            }
            if a.len() < b.len() && a == b.take(a.len() as int) {
                assert(x =~= y.take(x.len() as int)) by {
                    assert forall|i: int| 0 <= i < x.len() implies x[i] == y[i] by {
                        assert(a[i + 1] == b.take(a.len() as int)[i + 1]);
                    }
                }
            }
            if exists|k: int|
                0 <= k < x.len() && k < y.len() && x.take(k) == y.take(k) && #[trigger] x[k] < y[k] {
                let k = choose|k: int|
                    0 <= k < x.len() && k < y.len() && x.take(k) == y.take(k) && #[trigger] x[k]
                        < y[k];
                assert(a.take(k + 1) =~= b.take(k + 1)) by {
                    assert forall|i: int| 0 <= i < k + 1 implies a[i] == b[i] by {
                        if i > 0 {
                            assert(x.take(k)[i - 1] == y.take(k)[i - 1]);
                        }
                    }
                }
                assert(a[k + 1] < b[k + 1]);
            }
            if exists|k: int|
                0 <= k < a.len() && k < b.len() && a.take(k) == b.take(k) && #[trigger] a[k] < b[k] {
                let k = choose|k: int|
                    0 <= k < a.len() && k < b.len() && a.take(k) == b.take(k) && #[trigger] a[k]
                        < b[k];
                assert(k > 0);
                assert(x.take(k - 1) =~= y.take(k - 1)) by {
                    assert forall|i: int| 0 <= i < k - 1 implies x[i] == y[i] by {
                        assert(a.take(k)[i + 1] == b.take(k)[i + 1]);
                    }
                }
                assert(x[k - 1] < y[k - 1]);
            }
        }
    }
}

/// The characters of `s`, one by one.
pub fn chars_of(s: &str) -> (r: Vec<char>)
    ensures
        r@ == s@,
{
    let mut out: Vec<char> = Vec::new();
    for c in it: s.chars()
        invariant
            out@ == s@.take(it.index() as int),
            it.seq() == s@,
    {
        assert(s@.take(it.index() as int + 1) =~= s@.take(it.index() as int).push(c));
        out.push(c);
    }
    assert(s@.take(s@.len() as int) =~= s@);
    out
}

/// Whether `a` and `b` hold the same text.
pub fn same(a: &str, b: &str) -> (r: bool)
    ensures
        r == (a@ == b@),
{
    let x = chars_of(a);
    chars_are(&x, b)
}

/// Whether the characters `v` spell the text `s`.
pub fn chars_are(v: &Vec<char>, s: &str) -> (r: bool)
    ensures
        r == (v@ == s@),
{
    let y = chars_of(s);
    if v.len() != y.len() {
        return false;
    }
    for i in 0..v.len()
        invariant
            v@.len() == y@.len(),
            v@.take(i as int) == y@.take(i as int),
            y@ == s@,
    {
        if v[i] != y[i] {
            return false;
        }
        assert(v@.take(i + 1) =~= v@.take(i as int).push(v@[i as int]));
        assert(y@.take(i + 1) =~= y@.take(i as int).push(y@[i as int]));
    }
    assert(v@.take(v@.len() as int) =~= v@);
    assert(y@.take(y@.len() as int) =~= y@);
    true
}

/// Whether `a` comes strictly before `b`.
pub fn comes_before(a: &str, b: &str) -> (r: bool)
    ensures
        r == precedes(a@, b@),
{
    let x = chars_of(a);
    let y = chars_of(b);
    let mut i: usize = 0;
    while i < x.len() && i < y.len()
        invariant
            x@ == a@,
            y@ == b@,
            i <= x@.len(),
            i <= y@.len(),
            x@.take(i as int) == y@.take(i as int),
        decreases x@.len() - i,
    {
        if x[i] != y[i] {
            proof {
                lemma_precedes_skips_prefix(a@, b@, i as int);
            }
            return x[i] < y[i];
        }
        assert(x@.take(i + 1) =~= x@.take(i as int).push(x@[i as int]));
        assert(y@.take(i + 1) =~= y@.take(i as int).push(y@[i as int]));
        i = i + 1;
    }
    proof {
        lemma_precedes_skips_prefix(a@, b@, i as int);
    }
    i < y.len()
}

/// Order by code point, equal texts included.
pub open spec fn not_after() -> spec_fn(Text, Text) -> bool {
    |a: Text, b: Text| !precedes(b, a)
}

/// The texts in increasing order.
pub open spec fn sorted(s: Seq<Text>) -> Seq<Text> {
    s.sort_by(not_after())
}

/// The order by code point is total.
pub proof fn lemma_not_after_total()
    ensures
        vstd::relations::total_ordering(not_after()),
{
    let leq = not_after();
    assert forall|a: Text| #[trigger] leq(a, a) by {
        lemma_precedes_irreflexive(a);
    }
    assert forall|a: Text, b: Text| #[trigger] leq(a, b) && #[trigger] leq(b, a) implies a == b by {
        lemma_precedes_total(a, b);
    }
    assert forall|a: Text, b: Text, c: Text| #[trigger]
        leq(a, b) && #[trigger] leq(b, c) implies leq(a, c) by {
        lemma_precedes_total(a, b);
        lemma_precedes_total(b, c);
        if precedes(c, a) {
            if a == b {
            } else if b == c {
            } else {
                lemma_precedes_transitive(a, b, c);
                lemma_precedes_transitive(a, c, a);
                lemma_precedes_irreflexive(a);
            }
        }
    }
    assert forall|a: Text, b: Text| #[trigger] leq(a, b) || #[trigger] leq(b, a) by {
        if precedes(b, a) && precedes(a, b) {
            lemma_precedes_transitive(a, b, a);
            lemma_precedes_irreflexive(a);
        }
    }
}

/// The texts in increasing order.
pub fn sort_texts(v: Vec<String>) -> (r: Vec<String>)
    ensures
        views(r@) == sorted(views(v@)),
{
    let mut out: Vec<String> = Vec::new();
    let ghost all = views(v@);
    let ghost leq = not_after();
    proof {
        assert(views(out@) =~= all.take(0));
    }
    for i in 0..v.len()
        invariant
            all == views(v@),
            leq == not_after(),
            vstd::relations::sorted_by(views(out@), leq),
            views(out@).to_multiset() == all.take(i as int).to_multiset(),
    {
        let mut p: usize = 0;
        while p < out.len() && !comes_before(v[i].as_str(), out[p].as_str())
            invariant
                i < v@.len(),
                p <= out@.len(),
                forall|j: int| 0 <= j < p ==> !precedes(v@[i as int]@, (#[trigger] out@[j])@),
            decreases out@.len() - p,
        {
            p = p + 1;
        }
        let ghost before = views(out@);
        let ghost x = v@[i as int]@;
        out.insert(p, v[i].clone());
        proof {
            let after = views(out@);
            assert(after =~= before.insert(p as int, x));
            lemma_not_after_total();
            assert(vstd::relations::sorted_by(after, leq)) by {
                assert forall|j: int, k: int| 0 <= j < k < after.len() implies #[trigger] leq(
                    after[j],
                    after[k],
                ) by {
                    let j0 = if j < p { j } else { j - 1 };
                    let k0 = if k < p { k } else { k - 1 };
                    if j == p {
                        // x precedes the text that stood at p, which is not after before[k0]
                        assert(precedes(x, before[p as int]));
                        if precedes(before[p as int], x) {
                            lemma_precedes_transitive(x, before[p as int], x);
                            lemma_precedes_irreflexive(x);
                        }
                        assert(leq(x, before[p as int]));
                        if p < k0 {
                            assert(leq(before[p as int], before[k0]));
                        }
                    } else if k == p {
                        assert(!precedes(x, before[j0]));
                    } else {
                        assert(leq(before[j0], before[k0]));
                    }
                }
            }
            broadcast use vstd::seq_lib::group_to_multiset_ensures;
            assert(after.remove(p as int) =~= before);
            assert(after[p as int] == x);
            assert(after.to_multiset() =~= before.to_multiset().insert(x)) by {
                assert(after.remove(p as int).to_multiset() =~= after.to_multiset().remove(x));
                assert(after.contains(x));
            }
            assert(all.take(i + 1) =~= all.take(i as int).push(x));
        }
    }
    proof {
        assert(all.take(v@.len() as int) =~= all);
        lemma_not_after_total();
        all.lemma_sort_by_ensures(leq);
        vstd::seq_lib::lemma_sorted_unique(views(out@), sorted(all), leq);
    }
    out
}

// ---------------------------------------------------------------------------
// Whitespace and case
// ---------------------------------------------------------------------------

/// The characters with the Unicode property `White_Space`.
pub open spec fn is_whitespace(c: char) -> bool {
    ||| '\u{9}' <= c <= '\u{d}'
    ||| c == '\u{20}' || c == '\u{85}' || c == '\u{a0}' || c == '\u{1680}'
    ||| '\u{2000}' <= c <= '\u{200a}'
    ||| c == '\u{2028}' || c == '\u{2029}' || c == '\u{202f}' || c == '\u{205f}' || c == '\u{3000}'
}

/// `s` without its leading whitespace.
pub open spec fn trim_start(s: Text) -> Text
    decreases s.len(),
{
    if s.len() > 0 && is_whitespace(s[0]) {
        trim_start(s.drop_first())
    } else {
        s
    }
}

/// `s` without its trailing whitespace.
pub open spec fn trim_end(s: Text) -> Text
    decreases s.len(),
{
    if s.len() > 0 && is_whitespace(s.last()) {
        trim_end(s.drop_last())
    } else {
        s
    }
}

/// `s` without the whitespace around it.
pub open spec fn trimmed(s: Text) -> Text {
    trim_end(trim_start(s))
}

/// `c`, with an ASCII capital replaced by the small letter.
pub open spec fn lower(c: char) -> char {
    if 'A' <= c <= 'Z' {
        (c as int + 32) as char
    } else {
        c
    }
}

/// `s` with its ASCII capitals replaced by small letters.
pub open spec fn lowered(s: Text) -> Text {
    Seq::new(s.len(), |i: int| lower(s[i]))
}

fn whitespace(c: char) -> (r: bool)
    ensures
        r == is_whitespace(c),
{
    ('\u{9}' <= c && c <= '\u{d}') || c == '\u{20}' || c == '\u{85}' || c == '\u{a0}' || c
        == '\u{1680}' || ('\u{2000}' <= c && c <= '\u{200a}') || c == '\u{2028}' || c == '\u{2029}'
        || c == '\u{202f}' || c == '\u{205f}' || c == '\u{3000}'
}

fn to_lower(c: char) -> (r: char)
    ensures
        r == lower(c),
{
    if 'A' <= c && c <= 'Z' {
        (c as u8 + 32) as char
    } else {
        c
    }
}

/// The characters of `s` without the whitespace around them.
pub fn trim_chars(s: &str) -> (r: Vec<char>)
    ensures
        r@ == trimmed(s@),
{
    let all = chars_of(s);
    let mut from: usize = 0;
    assert(all@.skip(0) =~= s@);
    while from < all.len() && whitespace(all[from])
        invariant
            all@ == s@,
            from <= all@.len(),
            trim_start(s@) == trim_start(all@.skip(from as int)),
        decreases all@.len() - from,
    {
        assert(all@.skip(from as int).drop_first() =~= all@.skip(from + 1));
        from = from + 1;
    }
    let ghost start = trim_start(s@);
    assert(start == all@.skip(from as int));
    let mut to: usize = all.len();
    assert(start =~= all@.subrange(from as int, to as int));
    while to > from && whitespace(all[to - 1])
        invariant
            from <= to <= all@.len(),
            trim_end(start) == trim_end(all@.subrange(from as int, to as int)),
        decreases to,
    {
        assert(all@.subrange(from as int, to as int).drop_last() =~= all@.subrange(
            from as int,
            to - 1,
        ));
        assert(all@.subrange(from as int, to as int).last() == all@[to - 1]);
        to = to - 1;
    }
    let ghost middle = all@.subrange(from as int, to as int);
    assert(middle.len() > 0 ==> middle.last() == all@[to - 1]);
    let mut out: Vec<char> = Vec::new();
    for i in from..to
        invariant
            from <= to <= all@.len(),
            out@ == all@.subrange(from as int, i as int),
    {
        out.push(all[i]);
        assert(out@ =~= all@.subrange(from as int, i + 1));
    }
    out
}

/// The word that a line of input holds: trimmed, in small letters.
pub fn word_of(line: &str) -> (r: Vec<char>)
    ensures
        r@ == lowered(trimmed(line@)),
{
    let trimmed_line = trim_chars(line);
    let mut out: Vec<char> = Vec::new();
    for i in 0..trimmed_line.len()
        invariant
            out@ == lowered(trimmed_line@.take(i as int)),
    {
        out.push(to_lower(trimmed_line[i]));
        assert(out@ =~= lowered(trimmed_line@.take(i + 1)));
    }
    assert(trimmed_line@.take(trimmed_line@.len() as int) =~= trimmed_line@);
    out
}

/// Whether `line` holds nothing but whitespace.
pub fn is_blank(line: &str) -> (r: bool)
    ensures
        r == (trimmed(line@).len() == 0),
{
    trim_chars(line).len() == 0
}

// ---------------------------------------------------------------------------
// Building text
// ---------------------------------------------------------------------------

/// `a` followed by `b`.
pub fn join_two(a: &str, b: &str) -> (r: String)
    ensures
        r@ == a@ + b@,
{
    a.to_string().concat(b)
}

/// `a` followed by `b` and `c`.
pub fn join_three(a: &str, b: &str, c: &str) -> (r: String)
    ensures
        r@ == a@ + b@ + c@,
{
    a.to_string().concat(b).concat(c)
}

/// The parts in order, with `separator` between each two.
pub open spec fn joined(parts: Seq<Text>, separator: Text) -> Text
    decreases parts.len(),
{
    if parts.len() == 0 {
        seq![]
    } else if parts.len() == 1 {
        parts[0]
    } else {
        joined(parts.drop_last(), separator) + separator + parts.last()
    }
}

/// The parts in order, with `separator` between each two.
pub fn join(parts: &Vec<String>, separator: &str) -> (r: String)
    ensures
        r@ == joined(views(parts@), separator@),
{
    let mut out = String::new();
    assert(out@ =~= joined(views(parts@.take(0)), separator@));
    for i in 0..parts.len()
        invariant
            out@ == joined(views(parts@.take(i as int)), separator@),
    {
        let ghost before = views(parts@.take(i as int));
        let ghost now = views(parts@.take(i + 1));
        assert(now.drop_last() =~= before);
        assert(now.last() == parts@[i as int]@);
        if i > 0 {
            out.append(separator);
        } else {
            assert(before =~= seq![]);
        }
        out.append(parts[i].as_str());
        assert(out@ =~= joined(now, separator@));
    }
    assert(parts@.take(parts@.len() as int) =~= parts@);
    out
}

// ---------------------------------------------------------------------------
// Decimal numerals
// ---------------------------------------------------------------------------

/// The decimal digit for a number below ten.
pub open spec fn digit(d: nat) -> char {
    ('0' as int + d) as char
}

/// The decimal numeral of `n`, without leading zeros.
pub open spec fn decimal(n: nat) -> Text
    decreases n,
{
    if n < 10 {
        seq![digit(n)]
    } else {
        decimal(n / 10).push(digit(n % 10))
    }
}

/// Different numbers have different numerals.
pub proof fn lemma_decimal_injective(m: nat, n: nat)
    requires
        decimal(m) == decimal(n),
    ensures
        m == n,
    decreases m,
{
    lemma_decimal_nonempty(m);
    lemma_decimal_nonempty(n);
    assert(decimal(m).last() == digit(m % 10));
    assert(decimal(n).last() == digit(n % 10));
    if m >= 10 && n >= 10 {
        assert(decimal(m).drop_last() =~= decimal(m / 10));
        assert(decimal(n).drop_last() =~= decimal(n / 10));
        lemma_decimal_injective(m / 10, n / 10);
    } else if m >= 10 {
        lemma_decimal_nonempty(m / 10);
        assert(decimal(m).len() >= 2);
    } else if n >= 10 {
        lemma_decimal_nonempty(n / 10);
        assert(decimal(n).len() >= 2);
    }
}

/// A numeral is not empty and holds decimal digits alone.
pub proof fn lemma_decimal_nonempty(n: nat)
    ensures
        decimal(n).len() > 0,
        forall|i: int| 0 <= i < decimal(n).len() ==> '0' <= #[trigger] decimal(n)[i] <= '9',
    decreases n,
{
    if n >= 10 {
        lemma_decimal_nonempty(n / 10);
    }
}

fn digit_text(d: u64) -> (r: &'static str)
    requires
        d < 10,
    ensures
        r@ == seq![digit(d as nat)],
{
    proof {
        reveal_strlit("0");
        reveal_strlit("1");
        reveal_strlit("2");
        reveal_strlit("3");
        reveal_strlit("4");
        reveal_strlit("5");
        reveal_strlit("6");
        reveal_strlit("7");
        reveal_strlit("8");
        reveal_strlit("9");
    }
    if d == 0 {
        "0"
    } else if d == 1 {
        "1"
    } else if d == 2 {
        "2"
    } else if d == 3 {
        "3"
    } else if d == 4 {
        "4"
    } else if d == 5 {
        "5"
    } else if d == 6 {
        "6"
    } else if d == 7 {
        "7"
    } else if d == 8 {
        "8"
    } else {
        "9"
    }
}

/// The decimal numeral of `n`.
pub fn number_text(n: u64) -> (r: String)
    ensures
        r@ == decimal(n as nat),
    decreases n,
{
    if n < 10 {
        digit_text(n).to_string()
    } else {
        let front = number_text(n / 10);
        let r = front.concat(digit_text(n % 10));
        assert(r@ =~= decimal(n as nat));
        r
    }
}

// ---------------------------------------------------------------------------
// Laws
// ---------------------------------------------------------------------------

/// Whether the text is blank: all its characters are tabs, line breaks, spaces and
/// other white space, by their code points.
pub open spec fn all_blank(s: Text) -> bool {
    forall|i: int|
        0 <= i < s.len() ==> ({
            let c = #[trigger] s[i] as int;
            ||| 9 <= c <= 13
            ||| c == 32 || c == 133 || c == 160 || c == 5760
            ||| 8192 <= c <= 8202
            ||| c == 8232 || c == 8233 || c == 8239 || c == 8287 || c == 12288
        })
}

/// Whether the text is bare: it is empty, or starts and ends with a character that is
/// not white space.
pub open spec fn is_bare(s: Text) -> bool {
    s.len() > 0 ==> !all_blank(s.take(1)) && !all_blank(s.skip(s.len() - 1))
}

proof fn lemma_blank_character(c: char)
    ensures
        is_whitespace(c) <==> all_blank(seq![c]),
{
    assert(seq![c][0] == c);
}

/// Trimming takes off the white space around a text, all of it, and nothing else.
pub proof fn lemma_trimming_takes_the_white_space_off(front: Text, core: Text, back: Text)
    requires
        all_blank(front),
        all_blank(back),
        is_bare(core),
    ensures
        trimmed(front + core + back) == core,
    decreases front.len() + back.len(),
{
    let s = front + core + back;
    if front.len() > 0 {
        assert(s[0] == front[0]);
        assert(s.drop_first() =~= front.drop_first() + core + back);
        lemma_trimming_takes_the_white_space_off(front.drop_first(), core, back);
    } else {
        lemma_trimming_the_end(core, back);
        assert(s =~= core + back);
        if core.len() > 0 {
            lemma_blank_character(core[0]);
            assert(core.take(1) =~= seq![core[0]]);
            assert(s[0] == core[0]);
        } else if back.len() > 0 {
            assert(s.drop_first() =~= front + core + back.drop_first());
            assert(s[0] == back[0]);
            lemma_trimming_takes_the_white_space_off(front, core, back.drop_first());
        } else {
            assert(s =~= core);
        }
    }
}

proof fn lemma_trimming_the_end(core: Text, back: Text)
    requires
        all_blank(back),
        is_bare(core),
    ensures
        trim_end(core + back) == core,
    decreases back.len(),
{
    let s = core + back;
    if back.len() > 0 {
        assert(s.last() == back.last());
        assert(back.last() == back[back.len() - 1]);
        assert(s.drop_last() =~= core + back.drop_last());
        lemma_trimming_the_end(core, back.drop_last());
    } else {
        assert(s =~= core);
        if core.len() > 0 {
            lemma_blank_character(core.last());
            assert(core.skip(core.len() - 1) =~= seq![core.last()]);
        }
    }
}

/// Any text is white space, what trimming leaves, and white space.
pub proof fn lemma_trimming_leaves_the_middle(s: Text) -> (parts: (Text, Text))
    ensures
        all_blank(parts.0),
        all_blank(parts.1),
        is_bare(trimmed(s)),
        s == parts.0 + trimmed(s) + parts.1,
    decreases s.len(),
{
    if s.len() == 0 {
        let none: Text = seq![];
        assert(s =~= none + trimmed(s) + none);
        (none, none)
    } else if is_whitespace(s[0]) {
        let (a, b) = lemma_trimming_leaves_the_middle(s.drop_first());
        let front = seq![s[0]] + a;
        lemma_blank_character(s[0]);
        assert(seq![s[0]][0] == s[0]);
        assert forall|i: int| 0 <= i < front.len() implies is_whitespace(#[trigger] front[i]) by {
            if i > 0 {
                assert(front[i] == a[i - 1]);
            }
        }
        assert(s =~= seq![s[0]] + s.drop_first());
        assert(s =~= front + trimmed(s) + b);
        (front, b)
    } else if is_whitespace(s.last()) {
        let t = s.drop_last();
        if t.len() == 0 {
            assert(s[0] == s.last());
        }
        assert(t[0] == s[0]);
        let (a, b) = lemma_trimming_leaves_the_middle(t);
        assert(trimmed(t) == trimmed(s));
        let back = b.push(s.last());
        lemma_blank_character(s.last());
        assert forall|i: int| 0 <= i < back.len() implies is_whitespace(#[trigger] back[i]) by {
            if i < b.len() {
                assert(back[i] == b[i]);
            }
        }
        assert(s =~= t.push(s.last()));
        assert(s =~= a + trimmed(s) + back);
        (a, back)
    } else {
        let none: Text = seq![];
        lemma_blank_character(s[0]);
        lemma_blank_character(s.last());
        assert(s.take(1) =~= seq![s[0]]);
        assert(s.skip(s.len() - 1) =~= seq![s.last()]);
        assert(trimmed(s) == s);
        assert(s =~= none + trimmed(s) + none);
        (none, none)
    }
}

/// Whether `s` spells `w`, letter by letter, in small letters or capitals.
pub open spec fn spells(s: Text, w: Text) -> bool {
    &&& s.len() == w.len()
    &&& forall|i: int|
        #![trigger s[i]]
        0 <= i < s.len() ==> s[i] == w[i] || (65 <= s[i] as int <= 90 && s[i] as int + 32
            == w[i] as int)
}

/// Lowering keeps a text but for its capitals, which become small letters: what it
/// gives is a text without capitals that the original spells, and there is no other.
pub proof fn lemma_lowering_spells(s: Text, w: Text)
    ensures
        (forall|i: int| 0 <= i < w.len() ==> !(65 <= #[trigger] w[i] as int <= 90)) ==> (lowered(s)
            == w <==> spells(s, w)),
        forall|i: int| 0 <= i < lowered(s).len() ==> !(65 <= #[trigger] lowered(s)[i] as int <= 90),
{
    if forall|i: int| 0 <= i < w.len() ==> !(65 <= #[trigger] w[i] as int <= 90) {
        if spells(s, w) {
            assert forall|i: int| 0 <= i < s.len() implies lowered(s)[i] == w[i] by {
                assert(s[i] == w[i] || 65 <= s[i] as int <= 90);
                assert(!(65 <= w[i] as int <= 90));
            }
            assert(lowered(s) =~= w);
        }
        if lowered(s) == w {
            assert forall|i: int| #![trigger s[i]] 0 <= i < s.len() implies s[i] == w[i] || (65
                <= s[i] as int <= 90 && s[i] as int + 32 == w[i] as int) by {
                assert(lowered(s)[i] == w[i]);
            }
        }
    }
}

/// Joining puts the separator between each two parts: no part gives nothing, one part
/// gives itself, and one more part stands behind the others and a separator.
pub proof fn lemma_joining(parts: Seq<Text>, part: Text, separator: Text)
    ensures
        joined(Seq::empty(), separator).len() == 0,
        joined(seq![part], separator) == part,
        parts.len() > 0 ==> joined(parts.push(part), separator) == joined(parts, separator)
            + separator + part,
{
    assert(parts.push(part).drop_last() =~= parts);
}

/// The number that a sequence of decimal digits stands for.
pub open spec fn numeral_value(s: Text) -> int
    decreases s.len(),
{
    if s.len() == 0 {
        0
    } else {
        10 * numeral_value(s.drop_last()) + (s.last() as int - 48)
    }
}

/// A numeral reads back as its number, and has no leading zero unless it is one.
pub proof fn lemma_numerals_read_back(n: nat)
    ensures
        numeral_value(decimal(n)) == n,
        decimal(n).len() > 1 ==> decimal(n)[0] as int != 48,
    decreases n,
{
    if n < 10 {
        assert(decimal(n).drop_last() =~= seq![]);
        assert(numeral_value(decimal(n).drop_last()) == 0);
    } else {
        lemma_numerals_read_back(n / 10);
        assert(decimal(n).drop_last() =~= decimal(n / 10));
        if decimal(n / 10).len() == 1 {
            assert(decimal(n / 10).drop_last() =~= seq![]);
            assert(numeral_value(decimal(n / 10).drop_last()) == 0);
        }
        lemma_decimal_nonempty(n / 10);
    }
}

/// Sorting keeps every text as often as it occurs, and puts none before a smaller one.
pub proof fn lemma_sorting(s: Seq<Text>)
    ensures
        sorted(s).to_multiset() == s.to_multiset(),
        forall|i: int, j: int|
            0 <= i < j < sorted(s).len() ==> !precedes(#[trigger] sorted(s)[j], #[trigger] sorted(s)[i]),
{
    lemma_not_after_total();
    s.lemma_sort_by_ensures(not_after());
    assert forall|i: int, j: int| 0 <= i < j < sorted(s).len() implies !precedes(
        #[trigger] sorted(s)[j],
        #[trigger] sorted(s)[i],
    ) by {
        assert(not_after()(sorted(s)[i], sorted(s)[j]));
    }
}

} // verus!
