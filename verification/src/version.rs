//! Version strings: their dot-separated components, the numbers among them,
//! and the order that the numbers give.

use crate::text::{chars_eq, chars_of, texts};
use std::cmp::Ordering;
use vstd::prelude::*;

verus! {

/// The pieces of `s` between occurrences of `sep`. A text without `sep` is
/// one piece; `sep` at either end gives an empty piece there.
pub open spec fn split_on(s: Seq<char>, sep: char) -> Seq<Seq<char>>
    decreases s.len(),
{
    if s.len() == 0 {
        seq![Seq::<char>::empty()]
    } else {
        let head = split_on(s.drop_last(), sep);
        if s.last() == sep {
            head.push(Seq::<char>::empty())
        } else {
            head.update(head.len() - 1, head.last().push(s.last()))
        }
    }
}

/// Splitting gives at least one piece.
pub proof fn lemma_split_nonempty(s: Seq<char>, sep: char)
    ensures
        split_on(s, sep).len() >= 1,
    decreases s.len(),
{
    if s.len() > 0 {
        lemma_split_nonempty(s.drop_last(), sep);
    }
}

/// The value of a decimal digit.
pub open spec fn digit_value(c: char) -> Option<nat> {
    if '0' <= c <= '9' {
        Some((c as nat - '0' as nat) as nat)
    } else {
        None
    }
}

/// The number that a run of decimal digits writes; `None` where a character
/// is no digit.
pub open spec fn digits_value(s: Seq<char>) -> Option<nat>
    decreases s.len(),
{
    if s.len() == 0 {
        Some(0nat)
    } else {
        match (digits_value(s.drop_last()), digit_value(s.last())) {
            (Some(h), Some(d)) => Some(10 * h + d),
            _ => None,
        }
    }
}

/// The number that a component writes: decimal digits, at least one, after
/// an optional `+`, with a value that fits in 32 bits.
pub open spec fn parsed_number(s: Seq<char>) -> Option<u32> {
    let body = if s.len() > 0 && s[0] == '+' {
        s.drop_first()
    } else {
        s
    };
    if body.len() == 0 {
        None
    } else {
        match digits_value(body) {
            Some(n) => if n <= u32::MAX {
                Some(n as u32)
            } else {
                None
            },
            None => None,
        }
    }
}

/// The numbers among `parts`, in order; a part that writes no number is
/// passed over.
pub open spec fn numbers_of(parts: Seq<Seq<char>>) -> Seq<u32>
    decreases parts.len(),
{
    if parts.len() == 0 {
        Seq::<u32>::empty()
    } else {
        let head = numbers_of(parts.drop_last());
        match parsed_number(parts.last()) {
            Some(n) => head.push(n),
            None => head,
        }
    }
}

/// The numeric components of a version string.
pub open spec fn version_numbers(v: Seq<char>) -> Seq<u32> {
    numbers_of(split_on(v, '.'))
}

/// How `a` stands to `b`: negative where `a` is lower, zero where they are
/// equal, positive where `a` is higher. The first place where they differ
/// decides; where one is a prefix of the other, the longer one is higher.
pub open spec fn order_of(a: Seq<u32>, b: Seq<u32>) -> int
    decreases a.len(),
{
    if a.len() == 0 && b.len() == 0 {
        0
    } else if a.len() == 0 {
        -1
    } else if b.len() == 0 {
        1
    } else if a[0] < b[0] {
        -1
    } else if a[0] > b[0] {
        1
    } else {
        order_of(a.drop_first(), b.drop_first())
    }
}

/// How version `a` stands to version `b` by their numeric components.
pub open spec fn version_order(a: Seq<char>, b: Seq<char>) -> int {
    order_of(version_numbers(a), version_numbers(b))
}

/// Whether the components of `input` and of `target` are the same texts at
/// every position that both have.
pub open spec fn components_agree(input: Seq<char>, target: Seq<char>) -> bool {
    let a = split_on(input, '.');
    let b = split_on(target, '.');
    forall|i: int| 0 <= i < a.len() && i < b.len() ==> a[i] == b[i]
}

/// The order is a result of -1, 0 or 1, and turning the arguments round
/// turns its sign.
pub proof fn lemma_order_antisymmetric(a: Seq<u32>, b: Seq<u32>)
    ensures
        -1 <= order_of(a, b) <= 1,
        order_of(b, a) == -order_of(a, b),
    decreases a.len(),
{
    if a.len() > 0 && b.len() > 0 && a[0] == b[0] {
        lemma_order_antisymmetric(a.drop_first(), b.drop_first());
    }
}

/// Only equal number lists are of equal rank.
pub proof fn lemma_order_equal(a: Seq<u32>, b: Seq<u32>)
    ensures
        order_of(a, b) == 0 <==> a == b,
    decreases a.len(),
{
    if a.len() > 0 && b.len() > 0 && a[0] == b[0] {
        lemma_order_equal(a.drop_first(), b.drop_first());
        if a.drop_first() == b.drop_first() {
            assert(a =~= seq![a[0]] + a.drop_first());
            assert(b =~= seq![b[0]] + b.drop_first());
        }
    } else if a.len() == 0 && b.len() == 0 {
        assert(a =~= b);
    }
}

/// The order is transitive: what is not above `b`, with `b` not above `c`,
/// is not above `c`, and is below `c` where either step is strict.
pub proof fn lemma_order_transitive(a: Seq<u32>, b: Seq<u32>, c: Seq<u32>)
    requires
        order_of(a, b) <= 0,
        order_of(b, c) <= 0,
    ensures
        order_of(a, c) <= 0,
        order_of(a, b) < 0 || order_of(b, c) < 0 ==> order_of(a, c) < 0,
    decreases a.len(),
{
    if a.len() > 0 && b.len() > 0 && c.len() > 0 && a[0] == b[0] && b[0] == c[0] {
        lemma_order_transitive(a.drop_first(), b.drop_first(), c.drop_first());
    }
}

/// A number list is lower than itself with more numbers behind it.
pub proof fn lemma_longer_is_higher(a: Seq<u32>, more: Seq<u32>)
    requires
        more.len() > 0,
    ensures
        order_of(a, a + more) < 0,
    decreases a.len(),
{
    if a.len() > 0 {
        assert((a + more).drop_first() =~= a.drop_first() + more);
        lemma_longer_is_higher(a.drop_first(), more);
    }
}

/// The pieces of `s` between occurrences of `sep`.
pub fn split_chars(s: &Vec<char>, sep: char) -> (parts: Vec<Vec<char>>)
    ensures
        parts@.len() == split_on(s@, sep).len(),
        forall|i: int| 0 <= i < parts@.len() ==> (#[trigger] parts@[i])@ == split_on(s@, sep)[i],
{
    let mut done: Vec<Vec<char>> = Vec::new();
    let mut cur: Vec<char> = Vec::new();
    let mut i: usize = 0;
    while i < s.len()
        invariant
            i <= s.len(),
            split_on(s@.take(i as int), sep).len() == done@.len() + 1,
            forall|k: int|
                0 <= k < done@.len() ==> (#[trigger] done@[k])@ == split_on(
                    s@.take(i as int),
                    sep,
                )[k],
            cur@ == split_on(s@.take(i as int), sep).last(),
        decreases s.len() - i,
    {
        proof {
            assert(s@.take(i + 1).drop_last() == s@.take(i as int));
            assert(s@.take(i + 1).last() == s@[i as int]);
        }
        if s[i] == sep {
            done.push(cur);
            cur = Vec::new();
        } else {
            cur.push(s[i]);
        }
        i += 1;
    }
    assert(s@.take(s.len() as int) == s@);
    done.push(cur);
    done
}

/// The value of the decimal digit `c`.
fn digit_of(c: char) -> (r: Option<u32>)
    ensures
        match r {
            Some(d) => digit_value(c) == Some(d as nat) && d <= 9,
            None => digit_value(c) is None,
        },
{
    if c >= '0' && c <= '9' {
        Some((c as u32) - ('0' as u32))
    } else {
        None
    }
}

/// A run of digits writes at least what any of its beginnings writes.
proof fn lemma_digits_prefix(s: Seq<char>, i: int)
    requires
        0 <= i <= s.len(),
        digits_value(s) is Some,
    ensures
        digits_value(s.take(i)) is Some,
        digits_value(s.take(i))->0 <= digits_value(s)->0,
    decreases s.len(),
{
    if i == s.len() {
        assert(s.take(i) == s);
    } else {
        assert(s.drop_last().take(i) == s.take(i));
        lemma_digits_prefix(s.drop_last(), i);
    }
}

/// The number that `p` writes.
pub fn parse_number(p: &Vec<char>) -> (r: Option<u32>)
    ensures
        r == parsed_number(p@),
{
    let start: usize = if p.len() > 0 && p[0] == '+' {
        1
    } else {
        0
    };
    if start == p.len() {
        return None;
    }
    let ghost body = p@.skip(start as int);
    assert(body == if p@.len() > 0 && p@[0] == '+' {
        p@.drop_first()
    } else {
        p@
    });
    let mut acc: u64 = 0;
    let mut i: usize = start;
    while i < p.len()
        invariant
            start <= i <= p.len(),
            body == p@.skip(start as int),
            body.len() > 0,
            body == if p@.len() > 0 && p@[0] == '+' {
                p@.drop_first()
            } else {
                p@
            },
            digits_value(body.take(i - start)) == Some(acc as nat),
            acc <= u32::MAX,
        decreases p.len() - i,
    {
        proof {
            assert(body.take(i - start + 1).drop_last() == body.take(i - start));
            assert(body.take(i - start + 1).last() == p@[i as int]);
        }
        match digit_of(p[i]) {
            Some(d) => {
                let next: u64 = acc * 10 + (d as u64);
                if next > 0xffff_ffff {
                    proof {
                        assert(digits_value(body.take(i - start + 1)) == Some(next as nat));
                        if digits_value(body) is Some {
                            lemma_digits_prefix(body, i - start + 1);
                        }
                    }
                    return None;
                }
                acc = next;
            },
            None => {
                proof {
                    assert(digits_value(body.take(i - start + 1)) is None);
                    if digits_value(body) is Some {
                        lemma_digits_prefix(body, i - start + 1);
                    }
                }
                return None;
            },
        }
        i += 1;
    }
    assert(body.take(p.len() - start) == body);
    Some(acc as u32)
}

/// The numeric components of the version that `v` writes.
pub fn numbers_in(v: &str) -> (r: Vec<u32>)
    ensures
        r@ == version_numbers(v@),
{
    let chars = chars_of(v);
    let parts = split_chars(&chars, '.');
    let ghost pieces = split_on(v@, '.');
    let mut out: Vec<u32> = Vec::new();
    let mut i: usize = 0;
    while i < parts.len()
        invariant
            i <= parts.len(),
            parts@.len() == pieces.len(),
            forall|k: int| 0 <= k < parts@.len() ==> (#[trigger] parts@[k])@ == pieces[k],
            out@ == numbers_of(pieces.take(i as int)),
        decreases parts.len() - i,
    {
        proof {
            assert(pieces.take(i + 1).drop_last() == pieces.take(i as int));
            assert(pieces.take(i + 1).last() == pieces[i as int]);
        }
        match parse_number(&parts[i]) {
            Some(n) => {
                out.push(n);
            },
            None => {},
        }
        i += 1;
    }
    assert(pieces.take(parts.len() as int) == pieces);
    out
}

/// How `a` stands to `b`: -1, 0 or 1.
fn rank(a: &Vec<u32>, b: &Vec<u32>) -> (r: i8)
    ensures
        r == order_of(a@, b@),
{
    let mut i: usize = 0;
    assert(a@.skip(0) == a@ && b@.skip(0) == b@);
    while i < a.len() && i < b.len()
        invariant
            i <= a.len(),
            i <= b.len(),
            order_of(a@, b@) == order_of(a@.skip(i as int), b@.skip(i as int)),
        decreases a.len() - i,
    {
        proof {
            assert(a@.skip(i as int).drop_first() == a@.skip(i + 1));
            assert(b@.skip(i as int).drop_first() == b@.skip(i + 1));
        }
        if a[i] < b[i] {
            return -1;
        }
        if a[i] > b[i] {
            return 1;
        }
        i += 1;
    }
    if i == a.len() && i == b.len() {
        0
    } else if i == a.len() {
        -1
    } else {
        1
    }
}

/// Compares two versions by their numeric components.
pub fn cmp_versions(a: &str, b: &str) -> (r: Ordering)
    ensures
        match r {
            Ordering::Less => version_order(a@, b@) < 0,
            Ordering::Equal => version_order(a@, b@) == 0,
            Ordering::Greater => version_order(a@, b@) > 0,
        },
{
    let x = numbers_in(a);
    let y = numbers_in(b);
    let r = rank(&x, &y);
    if r < 0 {
        Ordering::Less
    } else if r == 0 {
        Ordering::Equal
    } else {
        Ordering::Greater
    }
}

/// Whether version `a` is higher than version `b`.
pub fn version_above(a: &str, b: &str) -> (r: bool)
    ensures
        r == (version_order(a@, b@) > 0),
{
    match cmp_versions(a, b) {
        Ordering::Greater => true,
        _ => false,
    }
}

/// Whether the components of `input` and of `target` are the same at every
/// position that both have.
pub fn agrees_with(input: &str, target: &str) -> (r: bool)
    ensures
        r == components_agree(input@, target@),
{
    let ic = chars_of(input);
    let tc = chars_of(target);
    let a = split_chars(&ic, '.');
    let b = split_chars(&tc, '.');
    let mut i: usize = 0;
    while i < a.len() && i < b.len()
        invariant
            i <= a.len(),
            i <= b.len(),
            a@.len() == split_on(input@, '.').len(),
            b@.len() == split_on(target@, '.').len(),
            forall|k: int| 0 <= k < a@.len() ==> (#[trigger] a@[k])@ == split_on(input@, '.')[k],
            forall|k: int| 0 <= k < b@.len() ==> (#[trigger] b@[k])@ == split_on(target@, '.')[k],
            forall|k: int|
                0 <= k < i ==> split_on(input@, '.')[k] == split_on(target@, '.')[k],
        decreases a.len() - i,
    {
        if !chars_eq(&a[i], &b[i]) {
            return false;
        }
        i += 1;
    }
    true
}

/// The pieces of `s` between occurrences of `sep`.
pub fn split_text(s: &str, sep: char) -> (r: Vec<String>)
    ensures
        texts(r@) == split_on(s@, sep),
{
    let chars = chars_of(s);
    let mut out: Vec<String> = Vec::new();
    let mut start: usize = 0;
    let mut i: usize = 0;
    proof {
        assert(s@.subrange(0, 0) =~= Seq::<char>::empty());
        assert(split_on(s@.take(0), sep) =~= texts(out@).push(s@.subrange(0, 0)));
    }
    while i < chars.len()
        invariant
            start <= i <= chars.len(),
            chars@ == s@,
            split_on(s@.take(i as int), sep) == texts(out@).push(
                s@.subrange(start as int, i as int),
            ),
        decreases chars.len() - i,
    {
        let ghost held = texts(out@);
        let ghost piece = s@.subrange(start as int, i as int);
        proof {
            assert(s@.take(i + 1).drop_last() == s@.take(i as int));
            assert(s@.take(i + 1).last() == s@[i as int]);
        }
        if chars[i] == sep {
            let ghost prev = out@;
            out.push(String::from_str(s.substring_char(start, i)));
            start = i + 1;
            proof {
                assert(texts(out@) =~= texts(prev).push(piece));
                assert(s@.subrange(i + 1, i + 1) =~= Seq::<char>::empty());
            }
        } else {
            proof {
                assert(s@.subrange(start as int, i + 1) =~= piece.push(s@[i as int]));
                assert(held.push(piece).update(held.len() as int, piece.push(s@[i as int]))
                    =~= held.push(piece.push(s@[i as int])));
            }
        }
        i += 1;
    }
    assert(s@.take(chars.len() as int) == s@);
    let ghost prev = out@;
    out.push(String::from_str(s.substring_char(start, chars.len())));
    assert(texts(out@) =~= texts(prev).push(s@.subrange(start as int, chars.len() as int)));
    out
}

} // verus!
