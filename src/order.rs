//! Ordering of rows by one column: the comparison of two rows, and sorting
//! by repeatedly taking the least remaining row.
use crate::filter::{utf8, OrderBy};
use crate::item::{Column, Item, ItemView};
use crate::model::items_view;
use vstd::prelude::*;

verus! {

/// Lexicographic comparison of byte strings: -1, 0 or 1.
pub open spec fn lex_cmp(x: Seq<u8>, y: Seq<u8>) -> int
    decreases x.len(),
{
    if x.len() == 0 {
        if y.len() == 0 { 0 } else { -1 }
    } else if y.len() == 0 {
        1
    } else if x[0] < y[0] {
        -1
    } else if x[0] > y[0] {
        1
    } else {
        lex_cmp(x.drop_first(), y.drop_first())
    }
}

pub open spec fn int_cmp(a: int, b: int) -> int {
    if a < b { -1 } else if a > b { 1 } else { 0 }
}

/// Comparison of two rows in column `c`: -1, 0 or 1. Text compares by its
/// UTF-8 bytes, stamps by time.
pub open spec fn key_cmp(c: Column, a: ItemView, b: ItemView) -> int {
    match c {
        Column::Id => int_cmp(a.id as int, b.id as int),
        Column::OwnerId => int_cmp(a.owner_id as int, b.owner_id as int),
        Column::Name => lex_cmp(utf8(a.name), utf8(b.name)),
        Column::Origin => lex_cmp(utf8(a.origin), utf8(b.origin)),
        Column::Grapes => lex_cmp(utf8(a.grapes), utf8(b.grapes)),
        Column::GoodWith => lex_cmp(utf8(a.good_with), utf8(b.good_with)),
        Column::Acid => int_cmp(a.acid as int, b.acid as int),
        Column::Alcohol => int_cmp(a.alcohol as int, b.alcohol as int),
        Column::Body => int_cmp(a.body as int, b.body as int),
        Column::Tannin => int_cmp(a.tannin as int, b.tannin as int),
        Column::Cid => int_cmp(a.cid as int, b.cid as int),
        Column::Ctime => if a.ctime.before(b.ctime) { -1 } else if b.ctime.before(a.ctime) { 1 } else { 0 },
        Column::Mid => int_cmp(a.mid as int, b.mid as int),
        Column::Mtime => if a.mtime.before(b.mtime) { -1 } else if b.mtime.before(a.mtime) { 1 } else { 0 },
    }
}

/// Row `a` comes before row `b`: by the column in the direction asked, then
/// by ascending key.
pub open spec fn row_before(ob: OrderBy, a: ItemView, b: ItemView) -> bool {
    match ob {
        OrderBy::Asc(c) => key_cmp(c, a, b) < 0 || (key_cmp(c, a, b) == 0 && a.id < b.id),
        OrderBy::Desc(c) => key_cmp(c, a, b) > 0 || (key_cmp(c, a, b) == 0 && a.id < b.id),
    }
}

/// The position of the first least row of `s`.
pub open spec fn least_index(ob: OrderBy, s: Seq<ItemView>) -> int
    decreases s.len(),
{
    if s.len() <= 1 {
        0
    } else {
        let k = least_index(ob, s.drop_last());
        if row_before(ob, s.last(), s[k]) { s.len() - 1 } else { k }
    }
}

proof fn lemma_least_index_range(ob: OrderBy, s: Seq<ItemView>)
    requires
        s.len() > 0,
    ensures
        0 <= least_index(ob, s) < s.len(),
    decreases s.len(),
{
    if s.len() > 1 {
        lemma_least_index_range(ob, s.drop_last());
    }
}

/// `s` sorted: its least row first, then the rest sorted.
pub open spec fn sorted_by(ob: OrderBy, s: Seq<ItemView>) -> Seq<ItemView>
    decreases s.len(),
{
    if s.len() == 0 {
        s
    } else {
        let m = least_index(ob, s);
        if 0 <= m < s.len() {
            seq![s[m]] + sorted_by(ob, s.remove(m))
        } else {
            s
        }
    }
}

proof fn lemma_lex_antisym(x: Seq<u8>, y: Seq<u8>)
    ensures
        lex_cmp(x, y) == -lex_cmp(y, x),
        lex_cmp(x, y) == 0 ==> x == y,
    decreases x.len(),
{
    if x.len() > 0 && y.len() > 0 && x[0] == y[0] {
        lemma_lex_antisym(x.drop_first(), y.drop_first());
        if lex_cmp(x, y) == 0 {
            assert(x =~= seq![x[0]] + x.drop_first());
            assert(y =~= seq![y[0]] + y.drop_first());
        }
    } else if x.len() == 0 && y.len() == 0 {
        assert(x =~= y);
    }
}

proof fn lemma_lex_trans(x: Seq<u8>, y: Seq<u8>, z: Seq<u8>)
    requires
        lex_cmp(x, y) < 0,
        lex_cmp(y, z) < 0,
    ensures
        lex_cmp(x, z) < 0,
    decreases x.len(),
{
    if x.len() > 0 && y.len() > 0 && z.len() > 0 && x[0] == y[0] && y[0] == z[0] {
        lemma_lex_trans(x.drop_first(), y.drop_first(), z.drop_first());
    }
}

proof fn lemma_key_order(c: Column, a: ItemView, b: ItemView, d: ItemView)
    ensures
        key_cmp(c, a, b) == -key_cmp(c, b, a),
        -1 <= key_cmp(c, a, b) <= 1,
        key_cmp(c, a, b) <= 0 && key_cmp(c, b, d) <= 0 ==> key_cmp(c, a, d) <= 0,
        key_cmp(c, a, b) <= 0 && key_cmp(c, b, d) <= 0 && (key_cmp(c, a, b) < 0 || key_cmp(
            c,
            b,
            d,
        ) < 0) ==> key_cmp(c, a, d) < 0,
{
    match c {
        Column::Name => lemma_lex3(utf8(a.name), utf8(b.name), utf8(d.name)),
        Column::Origin => lemma_lex3(utf8(a.origin), utf8(b.origin), utf8(d.origin)),
        Column::Grapes => lemma_lex3(utf8(a.grapes), utf8(b.grapes), utf8(d.grapes)),
        Column::GoodWith => lemma_lex3(utf8(a.good_with), utf8(b.good_with), utf8(d.good_with)),
        Column::Ctime => {
            crate::time::lemma_before_order(a.ctime, b.ctime, d.ctime);
            crate::time::lemma_before_order(b.ctime, d.ctime, a.ctime);
            crate::time::lemma_before_order(a.ctime, d.ctime, b.ctime);
        },
        Column::Mtime => {
            crate::time::lemma_before_order(a.mtime, b.mtime, d.mtime);
            crate::time::lemma_before_order(b.mtime, d.mtime, a.mtime);
            crate::time::lemma_before_order(a.mtime, d.mtime, b.mtime);
        },
        _ => {},
    }
}

proof fn lemma_lex3(x: Seq<u8>, y: Seq<u8>, z: Seq<u8>)
    ensures
        lex_cmp(x, y) == -lex_cmp(y, x),
        -1 <= lex_cmp(x, y) <= 1,
        lex_cmp(x, y) <= 0 && lex_cmp(y, z) <= 0 ==> lex_cmp(x, z) <= 0,
        lex_cmp(x, y) <= 0 && lex_cmp(y, z) <= 0 && (lex_cmp(x, y) < 0 || lex_cmp(y, z) < 0)
            ==> lex_cmp(x, z) < 0,
{
    lemma_lex_antisym(x, y);
    lemma_lex_antisym(y, z);
    lemma_lex_antisym(x, z);
    lemma_lex_range(x, y);
    if lex_cmp(x, y) < 0 && lex_cmp(y, z) < 0 {
        lemma_lex_trans(x, y, z);
    }
}

proof fn lemma_lex_range(x: Seq<u8>, y: Seq<u8>)
    ensures
        -1 <= lex_cmp(x, y) <= 1,
    decreases x.len(),
{
    if x.len() > 0 && y.len() > 0 && x[0] == y[0] {
        lemma_lex_range(x.drop_first(), y.drop_first());
    }
}

/// Coming before is transitive.
pub proof fn lemma_row_before_trans(ob: OrderBy, a: ItemView, b: ItemView, d: ItemView)
    requires
        row_before(ob, a, b),
        row_before(ob, b, d),
    ensures
        row_before(ob, a, d),
{
    reveal(row_before);
    match ob {
        OrderBy::Asc(c) => {
            lemma_key_order(c, d, b, a);
            lemma_key_order(c, a, b, d);
            lemma_key_order(c, a, d, b);
            lemma_key_order(c, b, d, a);
        },
        OrderBy::Desc(c) => {
            lemma_key_order(c, d, b, a);
            lemma_key_order(c, a, b, d);
            lemma_key_order(c, a, d, b);
            lemma_key_order(c, b, d, a);
        },
    }
}

/// Of two rows with different keys, one comes before the other.
pub proof fn lemma_row_before_total(ob: OrderBy, a: ItemView, b: ItemView)
    requires
        a.id != b.id,
    ensures
        row_before(ob, a, b) || row_before(ob, b, a),
{
    reveal(row_before);
    match ob {
        OrderBy::Asc(c) => lemma_key_order(c, a, b, a),
        OrderBy::Desc(c) => lemma_key_order(c, a, b, a),
    }
}

/// No row comes before itself.
pub proof fn lemma_row_before_irrefl(ob: OrderBy, a: ItemView)
    ensures
        !row_before(ob, a, a),
{
    reveal(row_before);
    match ob {
        OrderBy::Asc(c) => lemma_key_order(c, a, a, a),
        OrderBy::Desc(c) => lemma_key_order(c, a, a, a),
    }
}

proof fn lemma_least_is_least(ob: OrderBy, s: Seq<ItemView>)
    requires
        s.len() > 0,
    ensures
        0 <= least_index(ob, s) < s.len(),
        forall|j: int| 0 <= j < s.len() ==> !row_before(ob, #[trigger] s[j], s[least_index(ob, s)]),
    decreases s.len(),
{
    lemma_least_index_range(ob, s);
    lemma_row_before_irrefl(ob, s[least_index(ob, s)]);
    if s.len() > 1 {
        let p = s.drop_last();
        lemma_least_is_least(ob, p);
        let k = least_index(ob, p);
        assert forall|j: int| 0 <= j < s.len() implies !row_before(
            ob,
            #[trigger] s[j],
            s[least_index(ob, s)],
        ) by {
            if j < s.len() - 1 {
                assert(s[j] == p[j]);
                assert(s[k] == p[k]);
                if row_before(ob, s.last(), s[k]) {
                    if row_before(ob, s[j], s.last()) {
                        lemma_row_before_trans(ob, s[j], s.last(), s[k]);
                    }
                }
            } else {
                assert(s[j] == s.last());
            }
        }
    }
}

proof fn lemma_sorted_members(ob: OrderBy, s: Seq<ItemView>)
    ensures
        sorted_by(ob, s).len() == s.len(),
        forall|j: int| 0 <= j < s.len() ==> s.contains(#[trigger] sorted_by(ob, s)[j]),
    decreases s.len(),
{
    if s.len() > 0 {
        let m = least_index(ob, s);
        lemma_least_index_range(ob, s);
        let rest = s.remove(m);
        lemma_sorted_members(ob, rest);
        let r = sorted_by(ob, s);
        assert forall|j: int| 0 <= j < s.len() implies s.contains(#[trigger] r[j]) by {
            if j == 0 {
                assert(r[0] == s[m]);
            } else {
                assert(r[j] == sorted_by(ob, rest)[j - 1]);
                let i = choose|i: int| 0 <= i < rest.len() && rest[i] == sorted_by(ob, rest)[j - 1];
                if i < m {
                    assert(s[i] == rest[i]);
                } else {
                    assert(s[i + 1] == rest[i]);
                }
            }
        }
    }
}

/// A sorted sequence has the rows it was given (as many, each one of them),
/// and no row in it comes before one that precedes it.
pub proof fn law_sorted_in_order(ob: OrderBy, s: Seq<ItemView>)
    ensures
        sorted_by(ob, s).len() == s.len(),
        forall|j: int| 0 <= j < s.len() ==> s.contains(#[trigger] sorted_by(ob, s)[j]),
        forall|i: int, j: int|
            0 <= i < j < s.len() ==> !row_before(ob, sorted_by(ob, s)[j], sorted_by(ob, s)[i]),
    decreases s.len(),
{
    lemma_sorted_members(ob, s);
    if s.len() > 0 {
        let m = least_index(ob, s);
        lemma_least_is_least(ob, s);
        let rest = s.remove(m);
        law_sorted_in_order(ob, rest);
        let r = sorted_by(ob, s);
        let rr = sorted_by(ob, rest);
        assert forall|i: int, j: int| 0 <= i < j < s.len() implies !row_before(ob, r[j], r[i]) by {
            assert(r[j] == rr[j - 1]);
            if i == 0 {
                assert(rest.contains(rr[j - 1]));
                let k = choose|k: int| 0 <= k < rest.len() && rest[k] == rr[j - 1];
                if k < m {
                    assert(s[k] == rest[k]);
                } else {
                    assert(s[k + 1] == rest[k]);
                }
            } else {
                assert(r[i] == rr[i - 1]);
            }
        }
    }
}

fn compare_bytes(x: &[u8], y: &[u8]) -> (r: i8)
    ensures
        r as int == lex_cmp(x@, y@),
{
    let mut i: usize = 0;
    assert(x@.subrange(0, x@.len() as int) =~= x@);
    assert(y@.subrange(0, y@.len() as int) =~= y@);
    while i < x.len() && i < y.len() && x[i] == y[i]
        invariant
            i <= x@.len(),
            i <= y@.len(),
            lex_cmp(x@, y@) == lex_cmp(x@.subrange(i as int, x@.len() as int), y@.subrange(i as int, y@.len() as int)),
        decreases x.len() - i,
    {
        let ghost xs = x@.subrange(i as int, x@.len() as int);
        let ghost ys = y@.subrange(i as int, y@.len() as int);
        assert(xs.drop_first() =~= x@.subrange(i + 1, x@.len() as int));
        assert(ys.drop_first() =~= y@.subrange(i + 1, y@.len() as int));
        i = i + 1;
    }
    let ghost xs = x@.subrange(i as int, x@.len() as int);
    let ghost ys = y@.subrange(i as int, y@.len() as int);
    if i == x.len() {
        assert(xs.len() == 0);
        if i == y.len() { 0 } else { -1 }
    } else if i == y.len() {
        assert(ys.len() == 0);
        1
    } else {
        assert(xs[0] == x@[i as int] && ys[0] == y@[i as int]);
        if x[i] < y[i] { -1 } else { 1 }
    }
}

fn compare_text(a: &String, b: &String) -> (r: i8)
    ensures
        r as int == lex_cmp(utf8(a@), utf8(b@)),
{
    compare_bytes(a.as_str().as_bytes(), b.as_str().as_bytes())
}

fn compare_int(a: i64, b: i64) -> (r: i8)
    ensures
        r as int == int_cmp(a as int, b as int),
{
    if a < b { -1 } else if a > b { 1 } else { 0 }
}

/// Compares two rows in column `c`.
pub fn compare_column(c: Column, a: &Item, b: &Item) -> (r: i8)
    ensures
        r as int == key_cmp(c, a@, b@),
{
    match c {
        Column::Id => compare_int(a.id, b.id),
        Column::OwnerId => compare_int(a.owner_id, b.owner_id),
        Column::Name => compare_text(&a.name, &b.name),
        Column::Origin => compare_text(&a.origin, &b.origin),
        Column::Grapes => compare_text(&a.grapes, &b.grapes),
        Column::GoodWith => compare_text(&a.good_with, &b.good_with),
        Column::Acid => compare_int(a.acid as i64, b.acid as i64),
        Column::Alcohol => compare_int(a.alcohol as i64, b.alcohol as i64),
        Column::Body => compare_int(a.body as i64, b.body as i64),
        Column::Tannin => compare_int(a.tannin as i64, b.tannin as i64),
        Column::Cid => compare_int(a.cid, b.cid),
        Column::Ctime => if a.ctime.is_before(&b.ctime) { -1 } else if b.ctime.is_before(&a.ctime) { 1 } else { 0 },
        Column::Mid => compare_int(a.mid, b.mid),
        Column::Mtime => if a.mtime.is_before(&b.mtime) { -1 } else if b.mtime.is_before(&a.mtime) { 1 } else { 0 },
    }
}

/// Whether row `a` comes before row `b`.
pub fn comes_before(ob: OrderBy, a: &Item, b: &Item) -> (r: bool)
    ensures
        r == row_before(ob, a@, b@),
{
    reveal(row_before);
    match ob {
        OrderBy::Asc(c) => {
            let k = compare_column(c, a, b);
            k < 0 || (k == 0 && a.id < b.id)
        },
        OrderBy::Desc(c) => {
            let k = compare_column(c, a, b);
            k > 0 || (k == 0 && a.id < b.id)
        },
    }
}

fn least(ob: OrderBy, rows: &Vec<Item>) -> (r: usize)
    requires
        rows@.len() > 0,
    ensures
        r as int == least_index(ob, items_view(rows@)),
        r < rows@.len(),
{
    let ghost s = items_view(rows@);
    let mut best: usize = 0;
    let mut i: usize = 1;
    assert(s.subrange(0, 1).len() == 1);
    while i < rows.len()
        invariant
            1 <= i <= rows@.len(),
            s == items_view(rows@),
            best < i,
            best as int == least_index(ob, s.subrange(0, i as int)),
        decreases rows.len() - i,
    {
        let ghost p = s.subrange(0, i + 1);
        assert(p.drop_last() =~= s.subrange(0, i as int));
        assert(p.last() == rows@[i as int]@);
        assert(p[best as int] == rows@[best as int]@);
        if comes_before(ob, &rows[i], &rows[best]) {
            best = i;
        }
        i = i + 1;
    }
    assert(s.subrange(0, rows@.len() as int) =~= s);
    best
}

/// The rows sorted in the order asked.
pub fn sort_rows(ob: OrderBy, rows: Vec<Item>) -> (r: Vec<Item>)
    ensures
        items_view(r@) == sorted_by(ob, items_view(rows@)),
{
    let ghost target = sorted_by(ob, items_view(rows@));
    let mut rest = rows;
    let mut out: Vec<Item> = Vec::new();
    assert(items_view(out@) + sorted_by(ob, items_view(rest@)) =~= target);
    while rest.len() > 0
        invariant
            items_view(out@) + sorted_by(ob, items_view(rest@)) == target,
        decreases rest@.len(),
    {
        let m = least(ob, &rest);
        let ghost before = items_view(rest@);
        let ghost done = items_view(out@);
        let x = rest.remove(m);
        out.push(x);
        proof {
            assert(items_view(rest@) =~= before.remove(m as int));
            assert(items_view(out@) =~= done.push(before[m as int]));
            assert(sorted_by(ob, before) == seq![before[m as int]] + sorted_by(ob, items_view(rest@)));
            assert(items_view(out@) + sorted_by(ob, items_view(rest@)) =~= done + sorted_by(ob, before));
        }
    }
    assert(items_view(rest@) =~= Seq::<ItemView>::empty());
    assert(items_view(out@) + sorted_by(ob, items_view(rest@)) =~= items_view(out@));
    out
}

} // verus!
