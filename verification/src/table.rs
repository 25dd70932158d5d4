//! Two-column tables as they are shown to the user: rows in the order of their keys,
//! columns padded to a common width, a frame around them.
use crate::text::{chars_le, chars_of, lemma_text_le_total, string_of, text_le, texts_of};
use vstd::prelude::*;
use vstd::utf8::encode_utf8;

verus! {

/// `order` with `x` put in behind the last position whose key does not come after the
/// key of `x`.
pub open spec fn placed(keys: Seq<Seq<char>>, order: Seq<usize>, x: usize) -> Seq<usize>
    decreases order.len(),
{
    if order.len() == 0 {
        seq![x]
    } else if text_le(keys[order.last() as int], keys[x as int]) {
        order.push(x)
    } else {
        placed(keys, order.drop_last(), x).push(order.last())
    }
}

/// The first `n` positions of `keys` in the order of their keys; positions with equal
/// keys stay in their order.
pub open spec fn sorted_order(keys: Seq<Seq<char>>, n: int) -> Seq<usize>
    decreases n,
{
    if n <= 0 {
        Seq::empty()
    } else {
        placed(keys, sorted_order(keys, n - 1), (n - 1) as usize)
    }
}

/// Neighbours in `order` are in the order of their keys.
pub open spec fn ordered(keys: Seq<Seq<char>>, order: Seq<usize>) -> bool {
    forall|i: int|
        0 <= i < order.len() - 1 ==> text_le(
            keys[(#[trigger] order[i]) as int],
            keys[order[i + 1] as int],
        )
}

proof fn lemma_placed_at(keys: Seq<Seq<char>>, order: Seq<usize>, x: usize, p: int)
    requires
        0 <= p <= order.len(),
        forall|k: int|
            p <= k < order.len() ==> !text_le(keys[(#[trigger] order[k]) as int], keys[x as int]),
        p > 0 ==> text_le(keys[order[p - 1] as int], keys[x as int]),
    ensures
        placed(keys, order, x) == order.insert(p, x),
    decreases order.len(),
{
    if order.len() == 0 {
        assert(order.insert(p, x) =~= seq![x]);
    } else if p == order.len() {
        assert(order.insert(p, x) =~= order.push(x));
    } else {
        let shorter = order.drop_last();
        assert(!text_le(keys[order[order.len() - 1] as int], keys[x as int]));
        assert forall|k: int| p <= k < shorter.len() implies !text_le(
            keys[(#[trigger] shorter[k]) as int],
            keys[x as int],
        ) by {
            assert(shorter[k] == order[k]);
        }
        lemma_placed_at(keys, shorter, x, p);
        assert(shorter.insert(p, x).push(order.last()) =~= order.insert(p, x));
    }
}

/// Putting a position in adds just that position.
pub proof fn lemma_placed_members(keys: Seq<Seq<char>>, order: Seq<usize>, x: usize)
    ensures
        placed(keys, order, x).len() == order.len() + 1,
        placed(keys, order, x).last() == x || (order.len() > 0 && placed(keys, order, x).last()
            == order.last()),
        forall|v: usize| #[trigger]
            placed(keys, order, x).contains(v) <==> v == x || order.contains(v),
    decreases order.len(),
{
    let result = placed(keys, order, x);
    if order.len() == 0 {
        assert(result[0] == x);
    } else if text_le(keys[order.last() as int], keys[x as int]) {
        assert forall|v: usize| #[trigger] result.contains(v) <==> v == x || order.contains(v) by {
            if result.contains(v) {
                let j = choose|j: int| 0 <= j < result.len() && result[j] == v;
                if j < order.len() {
                    assert(order[j] == v);
                }
            }
            if order.contains(v) {
                let j = choose|j: int| 0 <= j < order.len() && order[j] == v;
                assert(result[j] == v);
            }
            if v == x {
                assert(result[order.len() as int] == v);
            }
        }
    } else {
        let shorter = order.drop_last();
        let inner = placed(keys, shorter, x);
        lemma_placed_members(keys, shorter, x);
        assert forall|v: usize| #[trigger] result.contains(v) <==> v == x || order.contains(v) by {
            assert(inner.contains(v) <==> v == x || shorter.contains(v));
            if result.contains(v) {
                let j = choose|j: int| 0 <= j < result.len() && result[j] == v;
                if j < inner.len() {
                    assert(inner[j] == v);
                    assert(inner.contains(v));
                    if shorter.contains(v) {
                        let k = choose|k: int| 0 <= k < shorter.len() && shorter[k] == v;
                        assert(order[k] == v);
                    }
                } else {
                    assert(order[order.len() - 1] == v);
                }
            }
            if v == x || order.contains(v) {
                if v != x {
                    let k = choose|k: int| 0 <= k < order.len() && order[k] == v;
                    if k < shorter.len() {
                        assert(shorter[k] == v);
                        assert(shorter.contains(v));
                    }
                }
                if v == x || shorter.contains(v) {
                    assert(inner.contains(v));
                    let j = choose|j: int| 0 <= j < inner.len() && inner[j] == v;
                    assert(result[j] == v);
                } else {
                    assert(result[result.len() - 1] == v);
                }
            }
        }
    }
}

/// Putting a position into an ordered sequence keeps it ordered.
pub proof fn lemma_placed_ordered(keys: Seq<Seq<char>>, order: Seq<usize>, x: usize)
    requires
        ordered(keys, order),
    ensures
        ordered(keys, placed(keys, order, x)),
    decreases order.len(),
{
    let result = placed(keys, order, x);
    lemma_placed_members(keys, order, x);
    if order.len() == 0 {
    } else if text_le(keys[order.last() as int], keys[x as int]) {
        assert forall|i: int| 0 <= i < result.len() - 1 implies text_le(
            keys[(#[trigger] result[i]) as int],
            keys[result[i + 1] as int],
        ) by {
            if i < order.len() - 1 {
                assert(result[i] == order[i]);
                assert(result[i + 1] == order[i + 1]);
            }
        }
    } else {
        let shorter = order.drop_last();
        let inner = placed(keys, shorter, x);
        assert forall|i: int| 0 <= i < shorter.len() - 1 implies text_le(
            keys[(#[trigger] shorter[i]) as int],
            keys[shorter[i + 1] as int],
        ) by {
            assert(shorter[i] == order[i]);
            assert(shorter[i + 1] == order[i + 1]);
        }
        lemma_placed_ordered(keys, shorter, x);
        lemma_placed_members(keys, shorter, x);
        lemma_text_le_total(keys[order.last() as int], keys[x as int]);
        assert forall|i: int| 0 <= i < result.len() - 1 implies text_le(
            keys[(#[trigger] result[i]) as int],
            keys[result[i + 1] as int],
        ) by {
            if i < inner.len() - 1 {
                assert(result[i] == inner[i]);
                assert(result[i + 1] == inner[i + 1]);
            } else {
                assert(result[i] == inner.last());
                assert(result[i + 1] == order.last());
                if inner.last() != x {
                    assert(shorter.last() == order[order.len() - 2]);
                }
            }
        }
    }
}

/// The sorted order holds each of the first `n` positions once, and neighbours in it
/// are in the order of their keys.
pub proof fn lemma_sorted_order(keys: Seq<Seq<char>>, n: int)
    requires
        0 <= n <= usize::MAX,
    ensures
        sorted_order(keys, n).len() == n,
        ordered(keys, sorted_order(keys, n)),
        forall|v: usize| #[trigger] sorted_order(keys, n).contains(v) <==> v < n,
        sorted_order(keys, n).no_duplicates(),
    decreases n,
{
    if n > 0 {
        let before = sorted_order(keys, n - 1);
        let x = (n - 1) as usize;
        lemma_sorted_order(keys, n - 1);
        lemma_placed_ordered(keys, before, x);
        lemma_placed_members(keys, before, x);
        lemma_placed_distinct(keys, before, x);
    }
}

proof fn lemma_placed_distinct(keys: Seq<Seq<char>>, order: Seq<usize>, x: usize)
    requires
        order.no_duplicates(),
        !order.contains(x),
    ensures
        placed(keys, order, x).no_duplicates(),
    decreases order.len(),
{
    let result = placed(keys, order, x);
    if order.len() == 0 {
    } else if text_le(keys[order.last() as int], keys[x as int]) {
        assert forall|i: int, j: int| 0 <= i < result.len() && 0 <= j < result.len() && i
            != j implies result[i] != result[j] by {
            if i < order.len() {
                assert(order.contains(order[i]));
            }
            if j < order.len() {
                assert(order.contains(order[j]));
            }
        }
    } else {
        let shorter = order.drop_last();
        let inner = placed(keys, shorter, x);
        assert(!shorter.contains(x)) by {
            if shorter.contains(x) {
                let k = choose|k: int| 0 <= k < shorter.len() && shorter[k] == x;
                assert(order[k] == x);
            }
        }
        lemma_placed_distinct(keys, shorter, x);
        lemma_placed_members(keys, shorter, x);
        assert forall|i: int, j: int| 0 <= i < result.len() && 0 <= j < result.len() && i
            != j implies result[i] != result[j] by {
            if i < inner.len() && j < inner.len() {
                assert(result[i] == inner[i]);
                assert(result[j] == inner[j]);
            } else {
                let k = if i < inner.len() {
                    i
                } else {
                    j
                };
                assert(inner.contains(inner[k]));
                if inner[k] != x {
                    assert(shorter.contains(inner[k]));
                    let m = choose|m: int| 0 <= m < shorter.len() && shorter[m] == inner[k];
                    assert(order[m] == inner[k]);
                    assert(order[order.len() - 1] == order.last());
                } else {
                    assert(order.contains(order.last()));
                }
            }
        }
    }
}

/// Positions with equal keys stand in the order of the positions: where the key of a
/// later entry does not come after the key of an earlier one, the earlier entry is the
/// lower position.
pub open spec fn stable(keys: Seq<Seq<char>>, order: Seq<usize>) -> bool {
    forall|a: int, b: int|
        0 <= a < b < order.len() && text_le(
            keys[(#[trigger] order[b]) as int],
            keys[(#[trigger] order[a]) as int],
        ) ==> order[a] < order[b]
}

proof fn lemma_placed_somewhere(keys: Seq<Seq<char>>, order: Seq<usize>, x: usize) -> (p: int)
    ensures
        0 <= p <= order.len(),
        placed(keys, order, x) == order.insert(p, x),
        forall|k: int|
            p <= k < order.len() ==> !text_le(keys[(#[trigger] order[k]) as int], keys[x as int]),
    decreases order.len(),
{
    if order.len() == 0 {
        assert(order.insert(0, x) =~= seq![x]);
        0
    } else if text_le(keys[order.last() as int], keys[x as int]) {
        assert(order.insert(order.len() as int, x) =~= order.push(x));
        order.len() as int
    } else {
        let shorter = order.drop_last();
        let p = lemma_placed_somewhere(keys, shorter, x);
        assert(shorter.insert(p, x).push(order.last()) =~= order.insert(p, x));
        assert forall|k: int| p <= k < order.len() implies !text_le(
            keys[(#[trigger] order[k]) as int],
            keys[x as int],
        ) by {
            if k < shorter.len() {
                assert(shorter[k] == order[k]);
            }
        }
        p
    }
}

/// The sorted order is stable.
pub proof fn lemma_sorted_order_stable(keys: Seq<Seq<char>>, n: int)
    requires
        0 <= n <= usize::MAX,
    ensures
        stable(keys, sorted_order(keys, n)),
    decreases n,
{
    if n > 0 {
        let before = sorted_order(keys, n - 1);
        let x = (n - 1) as usize;
        let result = sorted_order(keys, n);
        lemma_sorted_order_stable(keys, n - 1);
        lemma_sorted_order(keys, n - 1);
        let p = lemma_placed_somewhere(keys, before, x);
        assert forall|a: int, b: int|
            0 <= a < b < result.len() && text_le(
                keys[(#[trigger] result[b]) as int],
                keys[(#[trigger] result[a]) as int],
            ) implies result[a] < result[b] by {
            if b == p {
                assert(result[a] == before[a]);
                assert(before.contains(before[a]));
            } else if a == p {
                assert(result[b] == before[b - 1]);
            } else {
                let a0 = if a < p {
                    a
                } else {
                    a - 1
                };
                let b0 = if b < p {
                    b
                } else {
                    b - 1
                };
                assert(result[a] == before[a0]);
                assert(result[b] == before[b0]);
            }
        }
    }
}

/// The positions of `keys` in the order of their keys, as a stable sort leaves them.
pub fn sort_order(keys: &Vec<String>) -> (r: Vec<usize>)
    ensures
        r@ == sorted_order(keys.deep_view(), keys.len() as int),
        r@.len() == keys.len(),
        ordered(keys.deep_view(), r@),
        stable(keys.deep_view(), r@),
        forall|i: int| 0 <= i < r@.len() ==> (#[trigger] r@[i]) < keys.len(),
{
    let mut texts: Vec<Vec<char>> = Vec::new();
    let mut i: usize = 0;
    while i < keys.len()
        invariant
            i <= keys.len(),
            texts_of(texts@) == keys.deep_view().take(i as int),
        decreases keys.len() - i,
    {
        let ghost before = texts_of(texts@);
        texts.push(chars_of(keys[i].as_str()));
        assert(texts_of(texts@) =~= before.push(keys[i as int]@));
        assert(keys.deep_view().take(i + 1) =~= keys.deep_view().take(i as int).push(
            keys[i as int]@,
        ));
        i += 1;
    }
    assert(keys.deep_view().take(keys.len() as int) =~= keys.deep_view());
    let ghost all = keys.deep_view();
    let mut order: Vec<usize> = Vec::new();
    let mut x: usize = 0;
    while x < keys.len()
        invariant
            x <= keys.len(),
            all == keys.deep_view(),
            texts_of(texts@) == all,
            texts.len() == keys.len(),
            order@ == sorted_order(all, x as int),
            order@.len() == x,
            forall|k: int| 0 <= k < order@.len() ==> (#[trigger] order@[k]) < x,
        decreases keys.len() - x,
    {
        let mut p: usize = order.len();
        while p > 0 && !chars_le(&texts[order[p - 1]], &texts[x])
            invariant
                p <= order.len(),
                x < keys.len(),
                texts.len() == keys.len(),
                texts_of(texts@) == all,
                forall|k: int| 0 <= k < order@.len() ==> (#[trigger] order@[k]) < x,
                forall|k: int|
                    p <= k < order@.len() ==> !text_le(
                        all[(#[trigger] order@[k]) as int],
                        all[x as int],
                    ),
            decreases p,
        {
            assert(texts_of(texts@)[order@[p - 1] as int] == texts@[order@[p - 1] as int]@);
            assert(texts_of(texts@)[x as int] == texts@[x as int]@);
            p -= 1;
        }
        proof {
            if p > 0 {
                assert(texts_of(texts@)[order@[p - 1] as int] == texts@[order@[p - 1] as int]@);
                assert(texts_of(texts@)[x as int] == texts@[x as int]@);
            }
            lemma_placed_at(all, order@, x, p as int);
        }
        let ghost before = order@;
        order.insert(p, x);
        assert forall|k: int| 0 <= k < order@.len() implies (#[trigger] order@[k]) < x + 1 by {
            if k < p {
                assert(order@[k] == before[k]);
            } else if k > p {
                assert(order@[k] == before[k - 1]);
            }
        }
        x += 1;
    }
    proof {
        lemma_sorted_order(all, keys.len() as int);
        lemma_sorted_order_stable(all, keys.len() as int);
    }
    order
}

/// The first components of the cells.
pub open spec fn keys_of(cells: Seq<(Seq<char>, Seq<char>)>) -> Seq<Seq<char>> {
    Seq::new(cells.len(), |i: int| cells[i].0)
}

/// The second components of the cells.
pub open spec fn values_of(cells: Seq<(Seq<char>, Seq<char>)>) -> Seq<Seq<char>> {
    Seq::new(cells.len(), |i: int| cells[i].1)
}

/// The cells in the order of their first components; cells with equal first components
/// stay in their order.
pub open spec fn in_key_order(cells: Seq<(Seq<char>, Seq<char>)>) -> Seq<(Seq<char>, Seq<char>)> {
    Seq::new(
        cells.len(),
        |i: int| cells[sorted_order(keys_of(cells), cells.len() as int)[i] as int],
    )
}

/// Sorts the cells by their first components, keeping cells with equal first
/// components in their order.
pub fn sort_cells(cells: &Vec<(String, String)>) -> (r: Vec<(String, String)>)
    ensures
        r.deep_view() == in_key_order(cells.deep_view()),
{
    let mut keys: Vec<String> = Vec::new();
    let mut i: usize = 0;
    while i < cells.len()
        invariant
            i <= cells.len(),
            keys.deep_view() == keys_of(cells.deep_view()).take(i as int),
        decreases cells.len() - i,
    {
        let ghost before = keys.deep_view();
        keys.push(cells[i].0.clone());
        assert(keys.deep_view() =~= before.push(cells[i as int].0@));
        assert(keys_of(cells.deep_view()).take(i + 1) =~= keys_of(cells.deep_view()).take(
            i as int,
        ).push(cells[i as int].0@));
        i += 1;
    }
    assert(keys_of(cells.deep_view()).take(cells.len() as int) =~= keys_of(cells.deep_view()));
    let order = sort_order(&keys);
    let mut out: Vec<(String, String)> = Vec::new();
    let mut k: usize = 0;
    while k < order.len()
        invariant
            k <= order.len(),
            order@.len() == cells.len(),
            order@ == sorted_order(keys_of(cells.deep_view()), cells.len() as int),
            forall|j: int| 0 <= j < order@.len() ==> (#[trigger] order@[j]) < cells.len(),
            out.deep_view() == in_key_order(cells.deep_view()).take(k as int),
        decreases order.len() - k,
    {
        let at: usize = order[k];
        let ghost before = out.deep_view();
        out.push((cells[at].0.clone(), cells[at].1.clone()));
        assert(out.deep_view() =~= before.push(cells.deep_view()[at as int]));
        assert(in_key_order(cells.deep_view()).take(k + 1) =~= in_key_order(
            cells.deep_view(),
        ).take(k as int).push(cells.deep_view()[at as int]));
        k += 1;
    }
    assert(in_key_order(cells.deep_view()).take(cells.len() as int) =~= in_key_order(
        cells.deep_view(),
    ));
    out
}

/// The length of a text in bytes, which is what `str::len` counts.
pub open spec fn byte_len(text: Seq<char>) -> nat {
    encode_utf8(text).len()
}

/// The greatest length in bytes among the texts, and 0 where there is none.
pub open spec fn widest(texts: Seq<Seq<char>>) -> nat
    decreases texts.len(),
{
    if texts.len() == 0 {
        0
    } else {
        let before = widest(texts.drop_last());
        if byte_len(texts.last()) > before {
            byte_len(texts.last())
        } else {
            before
        }
    }
}

/// The widths of the two columns of cells.
pub fn column_widths(cells: &Vec<(String, String)>) -> (r: (usize, usize))
    ensures
        r.0 == widest(keys_of(cells.deep_view())),
        r.1 == widest(values_of(cells.deep_view())),
{
    let mut first: usize = 0;
    let mut second: usize = 0;
    let mut i: usize = 0;
    let ghost keys = keys_of(cells.deep_view());
    let ghost values = values_of(cells.deep_view());
    while i < cells.len()
        invariant
            i <= cells.len(),
            keys == keys_of(cells.deep_view()),
            values == values_of(cells.deep_view()),
            first == widest(keys.take(i as int)),
            second == widest(values.take(i as int)),
        decreases cells.len() - i,
    {
        assert(keys.take(i + 1).drop_last() =~= keys.take(i as int));
        assert(values.take(i + 1).drop_last() =~= values.take(i as int));
        let a: usize = cells[i].0.as_str().as_bytes().len();
        let b: usize = cells[i].1.as_str().as_bytes().len();
        assert(keys.take(i + 1).last() == cells[i as int].0@);
        assert(values.take(i + 1).last() == cells[i as int].1@);
        if a > first {
            first = a;
        }
        if b > second {
            second = b;
        }
        i += 1;
    }
    assert(keys.take(cells.len() as int) =~= keys);
    assert(values.take(cells.len() as int) =~= values);
    (first, second)
}

/// `n` times the character `c`; nothing where `n` is not positive.
pub open spec fn repeated(c: char, n: int) -> Seq<char> {
    Seq::new(
        if n > 0 {
            n as nat
        } else {
            0
        },
        |i: int| c,
    )
}

/// `text` followed by as many blanks as it is shorter than `width` characters.
pub open spec fn padded(text: Seq<char>, width: int) -> Seq<char> {
    text + repeated(' ', width - text.len())
}

/// A horizontal line of the frame, with the given corner and crossing characters.
pub open spec fn rule(left: char, middle: char, right: char, first: int, second: int) -> Seq<
    char,
> {
    seq![left, '\u{2500}'] + repeated('\u{2500}', first) + seq!['\u{2500}', middle, '\u{2500}']
        + repeated('\u{2500}', second) + seq!['\u{2500}', right]
}

/// A line of the table with two cells.
pub open spec fn row(a: Seq<char>, b: Seq<char>, first: int, second: int) -> Seq<char> {
    seq!['\u{2502}', ' '] + padded(a, first) + seq![' ', '\u{2502}', ' '] + padded(b, second)
        + seq![' ', '\u{2502}']
}

/// The lines of the cells.
pub open spec fn rows_of(cells: Seq<(Seq<char>, Seq<char>)>, first: int, second: int) -> Seq<
    Seq<char>,
> {
    Seq::new(cells.len(), |i: int| row(cells[i].0, cells[i].1, first, second))
}

/// The lines of a framed table: the top of the frame, the headings, a line under them,
/// the cells and the bottom of the frame.
pub open spec fn framed(
    heading: (Seq<char>, Seq<char>),
    cells: Seq<(Seq<char>, Seq<char>)>,
    first: int,
    second: int,
) -> Seq<Seq<char>> {
    seq![
        rule('\u{250c}', '\u{252c}', '\u{2510}', first, second),
        row(heading.0, heading.1, first, second),
        rule('\u{251c}', '\u{253c}', '\u{2524}', first, second),
    ] + rows_of(cells, first, second) + seq![
        rule('\u{2514}', '\u{2534}', '\u{2518}', first, second),
    ]
}

fn push_repeated(out: &mut Vec<char>, c: char, n: usize)
    ensures
        final(out)@ == old(out)@ + repeated(c, n as int),
{
    let mut i: usize = 0;
    assert(out@ =~= old(out)@ + repeated(c, 0));
    while i < n
        invariant
            i <= n,
            out@ == old(out)@ + repeated(c, i as int),
        decreases n - i,
    {
        out.push(c);
        assert(repeated(c, i + 1) =~= repeated(c, i as int).push(c));
        i += 1;
    }
}

fn push_padded(out: &mut Vec<char>, text: &str, width: usize)
    ensures
        final(out)@ == old(out)@ + padded(text@, width as int),
{
    let mut chars = chars_of(text);
    let len: usize = chars.len();
    out.append(&mut chars);
    if width > len {
        push_repeated(out, ' ', width - len);
    } else {
        assert(repeated(' ', width - len) =~= Seq::<char>::empty());
    }
    assert(out@ =~= old(out)@ + padded(text@, width as int));
}

fn rule_line(left: char, middle: char, right: char, first: usize, second: usize) -> (r: String)
    ensures
        r@ == rule(left, middle, right, first as int, second as int),
{
    let mut out: Vec<char> = Vec::new();
    out.push(left);
    out.push('\u{2500}');
    push_repeated(&mut out, '\u{2500}', first);
    out.push('\u{2500}');
    out.push(middle);
    out.push('\u{2500}');
    push_repeated(&mut out, '\u{2500}', second);
    out.push('\u{2500}');
    out.push(right);
    assert(out@ =~= rule(left, middle, right, first as int, second as int));
    string_of(&out)
}

fn row_line(a: &str, b: &str, first: usize, second: usize) -> (r: String)
    ensures
        r@ == row(a@, b@, first as int, second as int),
{
    let mut out: Vec<char> = Vec::new();
    out.push('\u{2502}');
    out.push(' ');
    push_padded(&mut out, a, first);
    out.push(' ');
    out.push('\u{2502}');
    out.push(' ');
    push_padded(&mut out, b, second);
    out.push(' ');
    out.push('\u{2502}');
    assert(out@ =~= row(a@, b@, first as int, second as int));
    string_of(&out)
}

/// Draws a framed table of two columns of the given widths.
pub fn frame(
    heading: (&str, &str),
    cells: &Vec<(String, String)>,
    first: usize,
    second: usize,
) -> (r: Vec<String>)
    ensures
        r.deep_view() == framed(
            (heading.0@, heading.1@),
            cells.deep_view(),
            first as int,
            second as int,
        ),
{
    let ghost top = rule('\u{250c}', '\u{252c}', '\u{2510}', first as int, second as int);
    let ghost head = row(heading.0@, heading.1@, first as int, second as int);
    let ghost under = rule('\u{251c}', '\u{253c}', '\u{2524}', first as int, second as int);
    let ghost lines = rows_of(cells.deep_view(), first as int, second as int);
    let mut out: Vec<String> = Vec::new();
    out.push(rule_line('\u{250c}', '\u{252c}', '\u{2510}', first, second));
    out.push(row_line(heading.0, heading.1, first, second));
    out.push(rule_line('\u{251c}', '\u{253c}', '\u{2524}', first, second));
    assert(out.deep_view() =~= seq![top, head, under] + lines.take(0));
    let mut i: usize = 0;
    while i < cells.len()
        invariant
            i <= cells.len(),
            lines == rows_of(cells.deep_view(), first as int, second as int),
            out.deep_view() == seq![top, head, under] + lines.take(i as int),
        decreases cells.len() - i,
    {
        let ghost before = out.deep_view();
        out.push(row_line(cells[i].0.as_str(), cells[i].1.as_str(), first, second));
        assert(out.deep_view() =~= before.push(lines[i as int]));
        assert(lines.take(i + 1) =~= lines.take(i as int).push(lines[i as int]));
        assert(before.push(lines[i as int]) =~= seq![top, head, under] + lines.take(i + 1));
        i += 1;
    }
    assert(lines.take(cells.len() as int) =~= lines);
    let ghost before = out.deep_view();
    out.push(rule_line('\u{2514}', '\u{2534}', '\u{2518}', first, second));
    assert(out.deep_view() =~= before.push(
        rule('\u{2514}', '\u{2534}', '\u{2518}', first as int, second as int),
    ));
    assert(out.deep_view() =~= framed(
        (heading.0@, heading.1@),
        cells.deep_view(),
        first as int,
        second as int,
    ));
    out
}

} // verus!
