//! Text: the order of strings, prefixes, splitting, trimming and decimal numbers.
use vstd::prelude::*;
use vstd::std_specs::iter::IteratorSpec;
use vstd::string::{StrSliceExecFns, StringExecFns};

use crate::dup::views;

verus! {

/// Strings are ordered by the code points of their characters, as `str` orders its bytes.
#[verifier::opaque]
pub open spec fn text_less(a: Seq<char>, b: Seq<char>) -> bool
    decreases a.len(),
{
    if b.len() == 0 {
        false
    } else if a.len() == 0 {
        true
    } else if a[0] == b[0] {
        text_less(a.skip(1), b.skip(1))
    } else {
        a[0] < b[0]
    }
}

pub proof fn lemma_text_less_irreflexive(a: Seq<char>)
    ensures
        !text_less(a, a),
    decreases a.len(),
{
    reveal(text_less);
    if a.len() > 0 {
        lemma_text_less_irreflexive(a.skip(1));
    }
}

pub proof fn lemma_text_less_transitive(a: Seq<char>, b: Seq<char>, c: Seq<char>)
    requires
        text_less(a, b),
        text_less(b, c),
    ensures
        text_less(a, c),
    decreases a.len(),
{
    reveal(text_less);
    if a.len() > 0 && a[0] == b[0] && b[0] == c[0] {
        lemma_text_less_transitive(a.skip(1), b.skip(1), c.skip(1));
    }
}

pub proof fn lemma_text_less_total(a: Seq<char>, b: Seq<char>)
    ensures
        text_less(a, b) || text_less(b, a) || a == b,
    decreases a.len(),
{
    reveal(text_less);
    if a.len() == 0 {
        if b.len() == 0 {
            assert(a =~= b);
        }
    } else if b.len() > 0 && a[0] == b[0] {
        lemma_text_less_total(a.skip(1), b.skip(1));
        if a.skip(1) == b.skip(1) {
            assert(a =~= seq![a[0]] + a.skip(1));
            assert(b =~= seq![b[0]] + b.skip(1));
        }
    } else if b.len() > 0 {
        assert(a[0] != b[0]);
    }
}

/// Texts are in a total order.
pub proof fn lemma_text_order(a: Seq<char>, b: Seq<char>, c: Seq<char>)
    ensures
        text_less(a, b) ==> !text_less(b, a),
        !text_less(b, a) && !text_less(c, b) ==> !text_less(c, a),
        text_less(a, b) && text_less(b, c) ==> text_less(a, c),
        text_less(c, b) && text_less(b, a) ==> text_less(c, a),
{
    if text_less(a, b) && text_less(b, a) {
        lemma_text_less_transitive(a, b, a);
        lemma_text_less_irreflexive(a);
    }
    if text_less(a, b) && text_less(b, c) {
        lemma_text_less_transitive(a, b, c);
    }
    if text_less(c, b) && text_less(b, a) {
        lemma_text_less_transitive(c, b, a);
    }
    if !text_less(b, a) && !text_less(c, b) && text_less(c, a) {
        lemma_text_less_total(a, b);
        lemma_text_less_total(b, c);
        if a != b {
            lemma_text_less_transitive(c, a, b);
        }
    }
}

/// A text does not come before what it begins with.
pub proof fn lemma_prefix_not_less(p: Seq<char>, k: Seq<char>)
    requires
        p.is_prefix_of(k),
    ensures
        !text_less(k, p),
    decreases p.len(),
{
    reveal(text_less);
    if p.len() > 0 {
        assert(k.subrange(0, p.len() as int)[0] == p[0]);
        assert(p.skip(1) =~= k.skip(1).subrange(0, p.len() - 1)) by {
            assert forall|i: int| 0 <= i < p.len() - 1 implies p.skip(1)[i] == k.skip(1).subrange(
                0,
                p.len() - 1,
            )[i] by {
                assert(p[i + 1] == k.subrange(0, p.len() as int)[i + 1]);
            }
        }
        lemma_prefix_not_less(p.skip(1), k.skip(1));
    }
}

/// The texts that begin with `p` lie together in the order.
pub proof fn lemma_prefix_convex(p: Seq<char>, a: Seq<char>, b: Seq<char>)
    requires
        !text_less(a, p),
        text_less(a, b),
        p.is_prefix_of(b),
    ensures
        p.is_prefix_of(a),
    decreases p.len(),
{
    reveal(text_less);
    if p.len() > 0 {
        assert(b.subrange(0, p.len() as int)[0] == p[0]);
        assert(a.len() > 0);
        assert(a[0] == p[0]);
        assert(p.skip(1) =~= b.skip(1).subrange(0, p.len() - 1)) by {
            assert forall|i: int| 0 <= i < p.len() - 1 implies p.skip(1)[i] == b.skip(1).subrange(
                0,
                p.len() - 1,
            )[i] by {
                assert(p[i + 1] == b.subrange(0, p.len() as int)[i + 1]);
            }
        }
        lemma_prefix_convex(p.skip(1), a.skip(1), b.skip(1));
        let t = a.skip(1).subrange(0, p.len() - 1);
        assert forall|i: int| 0 <= i < p.len() implies p[i] == a[i] by {
            if i > 0 {
                assert(p.skip(1)[i - 1] == t[i - 1]);
            }
        }
        assert(p =~= a.subrange(0, p.len() as int));
    } else {
        assert(p =~= a.subrange(0, 0));
    }
}

/// Whether `a` comes before `b`.
pub fn less(a: &str, b: &str) -> (r: bool)
    ensures
        r == text_less(a@, b@),
{
    proof {
        reveal_with_fuel(text_less, 2);
    }
    let mut ia = a.chars();
    let mut ib = b.chars();
    let ghost mut n: int = 0;
    loop
        invariant
            0 <= n <= a@.len(),
            n <= b@.len(),
            ia.remaining() == a@.skip(n),
            ib.remaining() == b@.skip(n),
            text_less(a@, b@) == text_less(a@.skip(n), b@.skip(n)),
        decreases a@.len() - n,
    {
        proof {
            reveal_with_fuel(text_less, 2);
        }
        match (ia.next(), ib.next()) {
            (_, None) => return false,
            (None, Some(_)) => return true,
            (Some(x), Some(y)) => {
                assert(a@.skip(n).skip(1) =~= a@.skip(n + 1));
                assert(b@.skip(n).skip(1) =~= b@.skip(n + 1));
                if x != y {
                    return x < y;
                }
                proof {
                    n = n + 1;
                }
            },
        }
    }
}

/// Whether `s` begins with `prefix`.
pub fn has_prefix(s: &str, prefix: &str) -> (r: bool)
    ensures
        r == prefix@.is_prefix_of(s@),
{
    let mut ia = s.chars();
    let mut ib = prefix.chars();
    let ghost mut n: int = 0;
    loop
        invariant
            0 <= n <= s@.len(),
            n <= prefix@.len(),
            ia.remaining() == s@.skip(n),
            ib.remaining() == prefix@.skip(n),
            s@.take(n) == prefix@.take(n),
        decreases prefix@.len() - n,
    {
        match ib.next() {
            None => {
                assert(prefix@.take(n) =~= prefix@);
                return true;
            },
            Some(y) => {
                assert(y == prefix@[n]);
                match ia.next() {
                    None => {
                        return false;
                    },
                    Some(x) => {
                        assert(x == s@[n]);
                        if x != y {
                            return false;
                        }
                        assert(s@.take(n + 1) =~= s@.take(n).push(x));
                        assert(prefix@.take(n + 1) =~= prefix@.take(n).push(y));
                        proof {
                            n = n + 1;
                        }
                    },
                }
            },
        }
    }
}

/// Whether the two texts are the same.
pub fn same(a: &str, b: &str) -> (r: bool)
    ensures
        r == (a@ == b@),
{
    if a.len() != b.len() {
        return false;
    }
    if has_prefix(a, b) && has_prefix(b, a) {
        assert(a@ =~= b@);
        true
    } else {
        assert(a@ == b@ ==> b@.is_prefix_of(a@) && a@.is_prefix_of(b@));
        false
    }
}

/// Whether `s` ends with `suffix`.
pub open spec fn ends_with(s: Seq<char>, suffix: Seq<char>) -> bool {
    suffix.len() <= s.len() && s.skip(s.len() - suffix.len()) == suffix
}

pub fn has_suffix(s: &str, suffix: &str) -> (r: bool)
    ensures
        r == ends_with(s@, suffix@),
{
    let n: usize = s.unicode_len();
    let m: usize = suffix.unicode_len();
    if m > n {
        return false;
    }
    let tail: &str = s.substring_char(n - m, n);
    assert(tail@ =~= s@.skip(n - m));
    same(tail, suffix)
}

/// The text after the first `n` characters.
pub fn tail_from(s: &str, n: usize) -> (r: &str)
    requires
        n <= s@.len(),
    ensures
        r@ == s@.skip(n as int),
{
    let len: usize = s.unicode_len();
    let r: &str = s.substring_char(n, len);
    assert(r@ =~= s@.skip(n as int));
    r
}

/// What follows `prefix` in `s`, where `s` begins with it.
pub fn after_prefix<'a>(s: &'a str, prefix: &str) -> (r: Option<&'a str>)
    ensures
        match r {
            Some(t) => prefix@.is_prefix_of(s@) && t@ == s@.skip(prefix@.len() as int),
            None => !prefix@.is_prefix_of(s@),
        },
{
    if has_prefix(s, prefix) {
        Some(tail_from(s, prefix.unicode_len()))
    } else {
        None
    }
}

/// The number of characters before the first `c`, where there is one.
pub fn find_char(s: &str, c: char) -> (r: Option<usize>)
    ensures
        match r {
            Some(i) => i < s@.len() && s@[i as int] == c && !s@.take(i as int).contains(c),
            None => !s@.contains(c),
        },
{
    let mut it = s.chars();
    let n: usize = s.unicode_len();
    let mut i: usize = 0;
    while i < n
        invariant
            i <= n == s@.len(),
            it.remaining() == s@.skip(i as int),
            forall|j: int| 0 <= j < i ==> s@[j] != c,
        decreases n - i,
    {
        match it.next() {
            Some(x) => {
                assert(x == s@[i as int]);
                if x == c {
                    return Some(i);
                }
            },
            None => {},
        }
        i = i + 1;
    }
    None
}

/// Whether `s` holds the character `c`.
pub fn has_char(s: &str, c: char) -> (r: bool)
    ensures
        r == s@.contains(c),
{
    match find_char(s, c) {
        Some(i) => {
            assert(s@[i as int] == c);
            true
        },
        None => false,
    }
}

/// What stands before and after the first `c` in `s`.
pub fn split_once<'a>(s: &'a str, c: char) -> (r: Option<(&'a str, &'a str)>)
    ensures
        match r {
            Some((a, b)) => s@ == a@ + seq![c] + b@ && !a@.contains(c),
            None => !s@.contains(c),
        },
{
    match find_char(s, c) {
        Some(i) => {
            let n: usize = s.unicode_len();
            let a: &str = s.substring_char(0, i);
            let b: &str = s.substring_char(i + 1, n);
            assert(a@ =~= s@.take(i as int));
            assert(s@ =~= a@ + seq![c] + b@);
            Some((a, b))
        },
        None => None,
    }
}

/// A text without `c` is what stands before the first `c` of a text that it begins.
pub proof fn lemma_split_once(a: Seq<char>, b: Seq<char>, x: Seq<char>, y: Seq<char>, c: char)
    requires
        a + seq![c] + b == x + seq![c] + y,
        !a.contains(c),
        !x.contains(c),
    ensures
        a == x,
        b == y,
{
    let s = a + seq![c] + b;
    assert(s[a.len() as int] == c);
    assert(s[x.len() as int] == c) by {
        assert((x + seq![c] + y)[x.len() as int] == c);
    }
    if a.len() < x.len() {
        assert(x[a.len() as int] == (x + seq![c] + y)[a.len() as int]);
        assert(x.contains(c));
    }
    if x.len() < a.len() {
        assert(a[x.len() as int] == s[x.len() as int]);
        assert(a.contains(c));
    }
    assert(a =~= s.take(a.len() as int));
    assert(x =~= (x + seq![c] + y).take(x.len() as int));
    assert(b =~= s.skip((a.len() + 1) as int));
    assert(y =~= (x + seq![c] + y).skip((x.len() + 1) as int));
}

/// Whether `t` stands somewhere in `s`.
pub open spec fn holds(s: Seq<char>, t: Seq<char>) -> bool {
    exists|i: int| 0 <= i <= s.len() && t.is_prefix_of(#[trigger] s.skip(i))
}

pub fn contains_text(s: &str, t: &str) -> (r: bool)
    ensures
        r == holds(s@, t@),
{
    let n: usize = s.unicode_len();
    let mut i: usize = 0;
    loop
        invariant
            i <= n == s@.len(),
            forall|j: int| 0 <= j < i ==> !t@.is_prefix_of(#[trigger] s@.skip(j)),
        decreases n - i,
    {
        if has_prefix(tail_from(s, i), t) {
            return true;
        }
        if i == n {
            return false;
        }
        i = i + 1;
    }
}

/// The pieces of `s` between the occurrences of `sep`.
pub open spec fn split_on(s: Seq<char>, sep: char) -> Seq<Seq<char>>
    decreases s.len(),
{
    if s.len() == 0 {
        seq![Seq::<char>::empty()]
    } else {
        let p = split_on(s.drop_last(), sep);
        if s.last() == sep {
            p.push(Seq::empty())
        } else {
            p.update(p.len() - 1, p.last().push(s.last()))
        }
    }
}

pub proof fn lemma_split_nonempty(s: Seq<char>, sep: char)
    ensures
        split_on(s, sep).len() >= 1,
    decreases s.len(),
{
    if s.len() > 0 {
        lemma_split_nonempty(s.drop_last(), sep);
    }
}

/// Two texts have as many pieces as the two together, where they meet without a separator.
pub proof fn lemma_split_len(a: Seq<char>, b: Seq<char>, sep: char)
    ensures
        split_on(a + b, sep).len() == split_on(a, sep).len() + split_on(b, sep).len() - 1,
    decreases b.len(),
{
    lemma_split_nonempty(a, sep);
    if b.len() == 0 {
        assert(a + b =~= a);
    } else {
        lemma_split_len(a, b.drop_last(), sep);
        lemma_split_nonempty(b.drop_last(), sep);
        lemma_split_nonempty(a + b.drop_last(), sep);
        assert((a + b).drop_last() =~= a + b.drop_last());
        assert((a + b).last() == b.last());
    }
}

/// A text without the separator is one piece.
pub proof fn lemma_split_single(s: Seq<char>, sep: char)
    requires
        !s.contains(sep),
    ensures
        split_on(s, sep) == seq![s],
    decreases s.len(),
{
    if s.len() > 0 {
        assert(s.last() == s[s.len() - 1]);
        assert forall|i: int| 0 <= i < s.drop_last().len() implies s.drop_last()[i] != sep by {
            assert(s[i] != sep);
        }
        lemma_split_single(s.drop_last(), sep);
        assert(s.drop_last().push(s.last()) =~= s);
        assert(split_on(s, sep) =~= seq![s]);
    } else {
        assert(s =~= Seq::empty());
    }
}

/// The pieces of two texts joined by the separator are those of the first and then those of the second.
pub proof fn lemma_split_join(a: Seq<char>, b: Seq<char>, sep: char)
    ensures
        split_on(a.push(sep) + b, sep) == split_on(a, sep) + split_on(b, sep),
    decreases b.len(),
{
    let s = a.push(sep) + b;
    lemma_split_nonempty(a, sep);
    lemma_split_nonempty(b, sep);
    if b.len() == 0 {
        assert(s =~= a.push(sep));
        assert(s.drop_last() =~= a);
        assert(split_on(s, sep) =~= split_on(a, sep) + split_on(b, sep));
    } else {
        assert(s.drop_last() =~= a.push(sep) + b.drop_last());
        lemma_split_join(a, b.drop_last(), sep);
        lemma_split_nonempty(b.drop_last(), sep);
        assert(s.last() == b.last());
        assert(split_on(s, sep) =~= split_on(a, sep) + split_on(b, sep));
    }
}

/// No piece holds the separator.
pub proof fn lemma_split_pieces(s: Seq<char>, sep: char)
    ensures
        forall|i: int| 0 <= i < split_on(s, sep).len() ==> !(#[trigger] split_on(s, sep)[i]).contains(sep),
    decreases s.len(),
{
    if s.len() > 0 {
        lemma_split_pieces(s.drop_last(), sep);
        lemma_split_nonempty(s.drop_last(), sep);
        let p = split_on(s.drop_last(), sep);
        assert forall|i: int| 0 <= i < split_on(s, sep).len() implies !(#[trigger] split_on(s, sep)[i]).contains(
            sep,
        ) by {
            if s.last() != sep && i == p.len() - 1 {
                assert(!p[i].contains(sep));
                let q = p.last().push(s.last());
                assert forall|j: int| 0 <= j < q.len() implies q[j] != sep by {
                    if j < p.last().len() {
                        assert(p.last()[j] == q[j]);
                        assert(p[i].contains(p.last()[j]));
                    }
                }
            } else if i < p.len() {
                assert(split_on(s, sep)[i] == p[i]);
            }
        }
    }
}

/// Splits `s` at every occurrence of `sep`.
pub fn split(s: &str, sep: char) -> (r: Vec<String>)
    ensures
        views(r@) == split_on(s@, sep),
{
    let mut out: Vec<String> = Vec::new();
    let mut it = s.chars();
    let total: usize = s.unicode_len();
    let mut start: usize = 0;
    let mut n: usize = 0;
    proof {
        assert(s@.subrange(0, 0) =~= Seq::empty());
        assert(s@.take(0) =~= Seq::empty());
        assert(views(out@).push(s@.subrange(0, 0)) =~= split_on(s@.take(0), sep));
    }
    while n < total
        invariant
            start <= n <= total,
            total == s@.len(),
            it.remaining() == s@.skip(n as int),
            views(out@).push(s@.subrange(start as int, n as int)) == split_on(s@.take(n as int), sep),
        decreases total - n,
    {
        let c: char = match it.next() {
            Some(c) => c,
            None => {
                return out;
            },
        };
        proof {
            assert(c == s@[n as int]);
            assert(s@.take(n + 1).drop_last() =~= s@.take(n as int));
            assert(s@.take(n + 1).last() == c);
        }
        let ghost before = views(out@);
        if c == sep {
            let piece: &str = s.substring_char(start, n);
            out.push(piece.to_owned());
            assert(views(out@) =~= before.push(s@.subrange(start as int, n as int)));
            start = n + 1;
            assert(s@.subrange(start as int, n + 1) =~= Seq::empty());
        } else {
            assert(s@.subrange(start as int, n + 1) =~= s@.subrange(start as int, n as int).push(c));
            assert(before.push(s@.subrange(start as int, n + 1)) =~= split_on(s@.take(n + 1), sep));
        }
        n = n + 1;
    }
    let piece: &str = s.substring_char(start, total);
    let ghost before = views(out@);
    out.push(piece.to_owned());
    assert(views(out@) =~= before.push(s@.subrange(start as int, total as int)));
    assert(s@.take(total as int) =~= s@);
    out
}

/// The decimal digit for `d`.
pub open spec fn digit(d: int) -> char {
    (48 + d) as char
}

/// The decimal text of `n`.
pub open spec fn dec(n: nat) -> Seq<char>
    decreases n,
{
    if n < 10 {
        seq![digit(n as int)]
    } else {
        dec(n / 10).push(digit((n % 10) as int))
    }
}

/// The decimal text of a signed number.
pub open spec fn signed_dec(n: int) -> Seq<char> {
    if n < 0 {
        seq!['-'] + dec((-n) as nat)
    } else {
        dec(n as nat)
    }
}

fn digit_text(d: u64) -> (r: &'static str)
    requires
        d < 10,
    ensures
        r@ == seq![digit(d as int)],
{
    proof {
        reveal_strlit("0");
        reveal_strlit("1");
        reveal_strlit("2");
        reveal_strlit("3");
        reveal_strlit("4");
        reveal_strlit("5");
        reveal_strlit("6");
        reveal_strlit("7");
        reveal_strlit("8");
        reveal_strlit("9");
    }
    let r: &'static str = match d {
        0 => "0",
        1 => "1",
        2 => "2",
        3 => "3",
        4 => "4",
        5 => "5",
        6 => "6",
        7 => "7",
        8 => "8",
        _ => "9",
    };
    assert(r@ =~= seq![digit(d as int)]);
    r
}

/// Writes `n` in decimal.
pub fn decimal(n: u64) -> (r: String)
    ensures
        r@ == dec(n as nat),
    decreases n,
{
    if n < 10 {
        digit_text(n).to_owned()
    } else {
        let mut s: String = decimal(n / 10);
        s.append(digit_text(n % 10));
        assert(s@ =~= dec((n / 10) as nat).push(digit((n % 10) as int)));
        s
    }
}

/// Writes a signed number in decimal.
pub fn signed_decimal(n: i64) -> (r: String)
    ensures
        r@ == signed_dec(n as int),
{
    if n < 0 {
        proof {
            reveal_strlit("-");
        }
        let mut s: String = "-".to_owned();
        let m: u64 = if n == i64::MIN {
            0x8000_0000_0000_0000
        } else {
            (-n) as u64
        };
        let d: String = decimal(m);
        s.append(d.as_str());
        assert(s@ =~= seq!['-'] + dec((-n) as nat));
        s
    } else {
        decimal(n as u64)
    }
}

pub open spec fn is_digit(c: char) -> bool {
    '0' <= c <= '9'
}

/// The number that a text of digits stands for.
pub open spec fn dec_value(s: Seq<char>) -> nat
    decreases s.len(),
{
    if s.len() == 0 {
        0
    } else {
        10 * dec_value(s.drop_last()) + (s.last() as nat - 48) as nat
    }
}

pub open spec fn all_digits(s: Seq<char>) -> bool {
    forall|i: int| 0 <= i < s.len() ==> is_digit(#[trigger] s[i])
}

/// The unsigned number, at most `max`, that `s` spells: digits, after one `+` at most.
pub open spec fn number_of(s: Seq<char>, max: nat) -> Option<nat> {
    let body = if s.len() > 0 && s[0] == '+' {
        s.skip(1)
    } else {
        s
    };
    if body.len() > 0 && all_digits(body) && dec_value(body) <= max {
        Some(dec_value(body))
    } else {
        None
    }
}

/// The digits of a number spell it again.
pub proof fn lemma_dec_value(n: nat)
    ensures
        all_digits(dec(n)),
        dec(n).len() > 0,
        dec_value(dec(n)) == n,
    decreases n,
{
    if n < 10 {
        let s = dec(n);
        assert(s.drop_last() =~= Seq::empty());
        assert(dec_value(s.drop_last()) == 0);
    } else {
        lemma_dec_value(n / 10);
        let s = dec(n);
        assert(s.drop_last() =~= dec(n / 10));
        assert forall|i: int| 0 <= i < s.len() implies is_digit(#[trigger] s[i]) by {
            if i < s.len() - 1 {
                assert(s[i] == dec(n / 10)[i]);
            }
        }
    }
}

/// Two numbers with one decimal text are the same.
pub proof fn lemma_dec_injective(a: nat, b: nat)
    requires
        dec(a) == dec(b),
    ensures
        a == b,
{
    lemma_dec_value(a);
    lemma_dec_value(b);
}

proof fn lemma_dec_value_grows(s: Seq<char>, n: int)
    requires
        0 <= n <= s.len(),
    ensures
        dec_value(s.take(n)) <= dec_value(s),
    decreases s.len() - n,
{
    if n < s.len() {
        assert(s.take(n + 1).drop_last() =~= s.take(n));
        lemma_dec_value_grows(s, n + 1);
    } else {
        assert(s.take(n) =~= s);
    }
}

/// Reads an unsigned decimal number that is at most `max`.
pub fn parse_number(s: &str, max: u64) -> (r: Option<u64>)
    ensures
        match r {
            Some(n) => number_of(s@, max as nat) == Some(n as nat),
            None => number_of(s@, max as nat) is None,
        },
{
    let plus: bool = has_prefix(s, "+");
    proof {
        reveal_strlit("+");
        assert(plus == (s@.len() > 0 && s@[0] == '+')) by {
            if s@.len() > 0 && s@[0] == '+' {
                assert("+"@ =~= s@.take(1));
                assert("+"@.is_prefix_of(s@));
            }
            if plus {
                assert(s@.subrange(0, 1)[0] == "+"@[0]);
            }
        }
    }
    let body: &str = if plus {
        tail_from(s, 1)
    } else {
        s
    };
    let total: usize = body.unicode_len();
    if total == 0 {
        return None;
    }
    let mut it = body.chars();
    let mut value: u64 = 0;
    let mut n: usize = 0;
    assert(body@.take(0) =~= Seq::empty());
    while n < total
        invariant
            n <= total,
            total == body@.len(),
            total > 0,
            number_of(s@, max as nat) == (if all_digits(body@) && dec_value(body@) <= max {
                Some(dec_value(body@))
            } else {
                None
            }),
            it.remaining() == body@.skip(n as int),
            all_digits(body@.take(n as int)),
            value == dec_value(body@.take(n as int)),
            value <= max,
        decreases total - n,
    {
        let c: char = match it.next() {
            Some(c) => c,
            None => {
                return None;
            },
        };
        assert(c == body@[n as int]);
        if c < '0' || c > '9' {
            assert(!is_digit(body@[n as int]));
            return None;
        }
        let d: u64 = (c as u64) - 48;
        proof {
            assert(body@.take(n + 1).drop_last() =~= body@.take(n as int));
            lemma_dec_value_grows(body@, n + 1);
        }
        if value > max / 10 || d > max - value * 10 {
            return None;
        }
        value = value * 10 + d;
        proof {
            assert forall|i: int| 0 <= i < n + 1 implies is_digit(#[trigger] body@.take(n + 1)[i]) by {
                if i < n {
                    assert(body@.take(n as int)[i] == body@.take(n + 1)[i]);
                }
            }
        }
        n = n + 1;
    }
    assert(body@.take(n as int) =~= body@);
    Some(value)
}

/// The texts with `sep` between them.
pub open spec fn joined(s: Seq<Seq<char>>, sep: Seq<char>) -> Seq<char>
    decreases s.len(),
{
    if s.len() == 0 {
        Seq::empty()
    } else if s.len() == 1 {
        s[0]
    } else {
        joined(s.drop_last(), sep) + sep + s.last()
    }
}

/// Joins texts with `sep` between them.
pub fn join(texts: &Vec<String>, sep: &str) -> (r: String)
    ensures
        r@ == joined(views(texts@), sep@),
{
    let ghost all = views(texts@);
    let mut s: String = String::new();
    let mut i: usize = 0;
    assert(all.take(0) =~= Seq::empty());
    while i < texts.len()
        invariant
            i <= texts@.len(),
            all == views(texts@),
            s@ == joined(all.take(i as int), sep@),
        decreases texts@.len() - i,
    {
        assert(all.take(i + 1).drop_last() =~= all.take(i as int));
        assert(all.take(i + 1).last() == texts@[i as int]@);
        if i > 0 {
            s.append(sep);
        } else {
            assert(all.take(1)[0] == texts@[0]@);
            assert(s@ + texts@[0]@ =~= texts@[0]@);
        }
        s.append(texts[i].as_str());
        i = i + 1;
    }
    assert(all.take(i as int) =~= all);
    s
}

/// A character that Unicode counts as white space.
pub open spec fn is_space(c: char) -> bool {
    ('\u{9}' <= c <= '\u{d}') || c == ' ' || c == '\u{85}' || c == '\u{a0}' || c == '\u{1680}' || (
    '\u{2000}' <= c <= '\u{200a}') || c == '\u{2028}' || c == '\u{2029}' || c == '\u{202f}' || c
        == '\u{205f}' || c == '\u{3000}'
}

fn space(c: char) -> (r: bool)
    ensures
        r == is_space(c),
{
    ('\u{9}' <= c && c <= '\u{d}') || c == ' ' || c == '\u{85}' || c == '\u{a0}' || c == '\u{1680}' || (
    '\u{2000}' <= c && c <= '\u{200a}') || c == '\u{2028}' || c == '\u{2029}' || c == '\u{202f}' || c
        == '\u{205f}' || c == '\u{3000}'
}

/// A text without the white space at its start.
pub open spec fn trimmed_start(s: Seq<char>) -> Seq<char>
    decreases s.len(),
{
    if s.len() > 0 && is_space(s[0]) {
        trimmed_start(s.skip(1))
    } else {
        s
    }
}

/// A text without the white space at its end.
pub open spec fn trimmed_end(s: Seq<char>) -> Seq<char>
    decreases s.len(),
{
    if s.len() > 0 && is_space(s.last()) {
        trimmed_end(s.drop_last())
    } else {
        s
    }
}

/// A text without the white space at its ends.
pub open spec fn trimmed(s: Seq<char>) -> Seq<char> {
    trimmed_end(trimmed_start(s))
}

/// Takes the white space off both ends.
pub fn trim(s: &str) -> (r: &str)
    ensures
        r@ == trimmed(s@),
{
    let n: usize = s.unicode_len();
    let mut a: usize = 0;
    assert(s@.skip(0) =~= s@);
    while a < n && space(s.get_char(a))
        invariant
            a <= n == s@.len(),
            trimmed_start(s@) == trimmed_start(s@.skip(a as int)),
        decreases n - a,
    {
        assert(s@.skip(a as int).skip(1) =~= s@.skip(a + 1));
        a = a + 1;
    }
    let ghost t = s@.skip(a as int);
    assert(trimmed_start(s@) == t) by {
        if a < n {
            assert(t[0] == s@[a as int]);
        }
    }
    let mut b: usize = n;
    assert(s@.subrange(a as int, n as int) =~= t);
    while b > a && space(s.get_char(b - 1))
        invariant
            a <= b <= n == s@.len(),
            trimmed_end(t) == trimmed_end(s@.subrange(a as int, b as int)),
        decreases b,
    {
        assert(s@.subrange(a as int, b as int).drop_last() =~= s@.subrange(a as int, b - 1));
        assert(s@.subrange(a as int, b as int).last() == s@[b - 1]);
        b = b - 1;
    }
    let r: &str = s.substring_char(a, b);
    assert(b > a ==> r@.last() == s@[b - 1]);
    r
}

} // verus!
