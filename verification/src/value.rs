//! The payload model: a tree of values in which binary blobs may sit at any
//! depth.
//!
//! On a text transport a blob cannot stay in the payload. It is taken out and
//! sent after the packet as an attachment, and a numbered placeholder marks
//! its place. Blobs are numbered in the order in which a walk meets them that
//! goes into each value before it goes on to the next; attachments are sent
//! and put back in that order.

use vstd::prelude::*;
use vstd::slice::slice_to_vec;
use crate::wire::blobs;

verus! {

/// A payload value.
#[derive(Debug, PartialEq, Eq)]
pub enum Value {
    Null,
    Bool(bool),
    Int(i64),
    /// A floating-point number, held as the bits of its 64-bit encoding.
    Float(u64),
    Str(String),
    Bytes(Vec<u8>),
    Array(Vec<Value>),
    /// Keys and, in the same order, their values.
    Object { keys: Vec<String>, values: Vec<Value> },
    /// The marker that stands where the attachment with this number belongs.
    Placeholder(u64),
}

/// The mathematical content of a [`Value`].
pub enum ValueView {
    Null,
    Bool(bool),
    Int(i64),
    Float(u64),
    Str(Seq<char>),
    Bytes(Seq<u8>),
    Array(Seq<ValueView>),
    Object(Seq<Seq<char>>, Seq<ValueView>),
    Placeholder(nat),
}

/// The contents of a list of keys.
pub open spec fn key_views(keys: Seq<String>) -> Seq<Seq<char>> {
    Seq::new(keys.len(), |i: int| keys[i]@)
}

/// The content of `v`.
pub open spec fn view_of(v: Value) -> ValueView
    decreases v, 0nat,
{
    match v {
        Value::Null => ValueView::Null,
        Value::Bool(b) => ValueView::Bool(b),
        Value::Int(n) => ValueView::Int(n),
        Value::Float(bits) => ValueView::Float(bits),
        Value::Str(s) => ValueView::Str(s@),
        Value::Bytes(b) => ValueView::Bytes(b@),
        Value::Array(items) => ValueView::Array(views_of(items@, items@.len())),
        Value::Object { keys, values } => ValueView::Object(
            key_views(keys@),
            views_of(values@, values@.len()),
        ),
        Value::Placeholder(num) => ValueView::Placeholder(num as nat),
    }
}

/// The contents of the first `n` values of `items`.
pub open spec fn views_of(items: Seq<Value>, n: nat) -> Seq<ValueView>
    decreases items, n,
{
    if n == 0 || n > items.len() {
        Seq::empty()
    } else {
        views_of(items, (n - 1) as nat).push(view_of(items[n - 1]))
    }
}

/// The contents of `items`.
pub open spec fn views(items: Seq<Value>) -> Seq<ValueView> {
    views_of(items, items.len())
}

impl View for Value {
    type V = ValueView;

    open spec fn view(&self) -> ValueView {
        view_of(*self)
    }
}

/// The blobs of `v`, in the order of the walk.
pub open spec fn attachments(v: ValueView) -> Seq<Seq<u8>>
    decreases v, 0nat,
{
    match v {
        ValueView::Bytes(b) => seq![b],
        ValueView::Array(items) => attachments_of(items, items.len()),
        ValueView::Object(_, values) => attachments_of(values, values.len()),
        _ => Seq::empty(),
    }
}

/// The blobs of the first `n` values of `items`.
pub open spec fn attachments_of(items: Seq<ValueView>, n: nat) -> Seq<Seq<u8>>
    decreases items, n,
{
    if n == 0 || n > items.len() {
        Seq::empty()
    } else {
        attachments_of(items, (n - 1) as nat) + attachments(items[n - 1])
    }
}

/// `v` with each blob replaced by a placeholder. The placeholders are
/// numbered in the order of the walk, from `start` on.
pub open spec fn skeleton(v: ValueView, start: nat) -> ValueView
    decreases v, 0nat,
{
    match v {
        ValueView::Bytes(_) => ValueView::Placeholder(start),
        ValueView::Array(items) => ValueView::Array(skeletons_of(items, items.len(), start)),
        ValueView::Object(keys, values) => ValueView::Object(
            keys,
            skeletons_of(values, values.len(), start),
        ),
        _ => v,
    }
}

/// The skeletons of the first `n` values of `items`, numbered from `start` on.
pub open spec fn skeletons_of(items: Seq<ValueView>, n: nat, start: nat) -> Seq<ValueView>
    decreases items, n,
{
    if n == 0 || n > items.len() {
        Seq::empty()
    } else {
        skeletons_of(items, (n - 1) as nat, start).push(
            skeleton(items[n - 1], start + attachments_of(items, (n - 1) as nat).len()),
        )
    }
}

/// `v` with each placeholder replaced by the blob of its number. There is no
/// such value where a placeholder has a number that `blobs` does not reach.
pub open spec fn filled(v: ValueView, blobs: Seq<Seq<u8>>) -> Option<ValueView>
    decreases v, 0nat,
{
    match v {
        ValueView::Placeholder(num) => if num < blobs.len() {
            Some(ValueView::Bytes(blobs[num as int]))
        } else {
            None
        },
        ValueView::Array(items) => match filled_of(items, items.len(), blobs) {
            Some(done) => Some(ValueView::Array(done)),
            None => None,
        },
        ValueView::Object(keys, values) => match filled_of(values, values.len(), blobs) {
            Some(done) => Some(ValueView::Object(keys, done)),
            None => None,
        },
        _ => Some(v),
    }
}

/// The first `n` values of `items`, each filled.
pub open spec fn filled_of(items: Seq<ValueView>, n: nat, blobs: Seq<Seq<u8>>) -> Option<
    Seq<ValueView>,
>
    decreases items, n,
{
    if n == 0 || n > items.len() {
        Some(Seq::empty())
    } else {
        match (filled_of(items, (n - 1) as nat, blobs), filled(items[n - 1], blobs)) {
            (Some(front), Some(last)) => Some(front.push(last)),
            _ => None,
        }
    }
}

/// `v` holds no placeholder.
pub open spec fn plain(v: ValueView) -> bool
    decreases v, 0nat,
{
    match v {
        ValueView::Placeholder(_) => false,
        ValueView::Array(items) => plain_of(items, items.len()),
        ValueView::Object(_, values) => plain_of(values, values.len()),
        _ => true,
    }
}

/// None of the first `n` values of `items` holds a placeholder.
pub open spec fn plain_of(items: Seq<ValueView>, n: nat) -> bool
    decreases items, n,
{
    if n == 0 || n > items.len() {
        true
    } else {
        plain_of(items, (n - 1) as nat) && plain(items[n - 1])
    }
}

/// The contents of the first `n` values, one by one.
pub proof fn lemma_views_of(items: Seq<Value>, n: nat)
    requires
        n <= items.len(),
    ensures
        views_of(items, n).len() == n,
        forall|k: int| 0 <= k < n ==> #[trigger] views_of(items, n)[k] == view_of(items[k]),
    decreases n,
{
    if n > 0 {
        lemma_views_of(items, (n - 1) as nat);
    }
}

/// The skeletons of the first `n` values, one by one.
pub proof fn lemma_skeletons_of(items: Seq<ValueView>, n: nat, start: nat)
    requires
        n <= items.len(),
    ensures
        skeletons_of(items, n, start).len() == n,
        forall|k: int|
            0 <= k < n ==> #[trigger] skeletons_of(items, n, start)[k] == skeleton(
                items[k],
                start + attachments_of(items, k as nat).len(),
            ),
    decreases n,
{
    if n > 0 {
        lemma_skeletons_of(items, (n - 1) as nat, start);
    }
}

/// The blobs of a longer front start with the blobs of a shorter one.
pub proof fn lemma_attachments_prefix(items: Seq<ValueView>, n: nat, m: nat)
    requires
        n <= m <= items.len(),
    ensures
        attachments_of(items, n).len() <= attachments_of(items, m).len(),
        attachments_of(items, m).take(attachments_of(items, n).len() as int) == attachments_of(
            items,
            n,
        ),
    decreases m - n,
{
    if n < m {
        lemma_attachments_prefix(items, n, (m - 1) as nat);
        assert(attachments_of(items, m).take(attachments_of(items, n).len() as int)
            =~= attachments_of(items, (m - 1) as nat).take(
            attachments_of(items, n).len() as int,
        ));
    } else {
        assert(attachments_of(items, m).take(attachments_of(items, n).len() as int)
            =~= attachments_of(items, n));
    }
}

fn copy_bytes(b: &Vec<u8>) -> (r: Vec<u8>)
    ensures
        r@ == b@,
{
    slice_to_vec(b.as_slice())
}

fn copy_keys(keys: &Vec<String>) -> (r: Vec<String>)
    ensures
        key_views(r@) == key_views(keys@),
{
    let mut r: Vec<String> = Vec::new();
    let mut i: usize = 0;
    while i < keys.len()
        invariant
            i <= keys.len(),
            r@.len() == i,
            forall|k: int| 0 <= k < i ==> r@[k]@ == keys@[k]@,
        decreases keys.len() - i,
    {
        r.push(keys[i].clone());
        i += 1;
    }
    assert(key_views(r@) =~= key_views(keys@));
    r
}

/// The number of blobs in `v`, where it fits in a `usize`.
pub fn count_attachments(v: &Value) -> (n: Option<usize>)
    ensures
        match n {
            Some(count) => count == attachments(v@).len(),
            None => attachments(v@).len() > usize::MAX,
        },
    decreases v, 0nat,
{
    match v {
        Value::Bytes(_) => Some(1),
        Value::Array(items) => {
            proof {
                lemma_views_of(items@, items@.len());
            }
            count_in(items)
        },
        Value::Object { keys, values } => {
            proof {
                lemma_views_of(values@, values@.len());
            }
            count_in(values)
        },
        _ => Some(0),
    }
}

fn count_in(items: &Vec<Value>) -> (n: Option<usize>)
    ensures
        match n {
            Some(count) => count == attachments_of(views(items@), items@.len()).len(),
            None => attachments_of(views(items@), items@.len()).len() > usize::MAX,
        },
    decreases items, 0nat,
{
    let ghost all = views(items@);
    proof {
        lemma_views_of(items@, items@.len());
    }
    let mut n: usize = 0;
    let mut i: usize = 0;
    while i < items.len()
        invariant
            i <= items.len(),
            all == views(items@),
            all.len() == items@.len(),
            forall|k: int| 0 <= k < items@.len() ==> all[k] == view_of(#[trigger] items@[k]),
            n == attachments_of(all, i as nat).len(),
        decreases items.len() - i,
    {
        proof {
            lemma_attachments_prefix(all, (i + 1) as nat, all.len());
        }
        let more = match count_attachments(&items[i]) {
            Some(more) => more,
            None => {
                return None;
            },
        };
        n = match n.checked_add(more) {
            Some(sum) => sum,
            None => {
                return None;
            },
        };
        i += 1;
    }
    Some(n)
}

/// Takes the blobs out of `v`: the result is `v` with a placeholder for each
/// blob, and the blobs are appended to `out` in the order of the walk. The
/// placeholders are numbered from the length that `out` had.
pub fn extract(v: &Value, out: &mut Vec<Vec<u8>>) -> (r: Value)
    ensures
        r@ == skeleton(v@, old(out)@.len()),
        blobs(final(out)@) == blobs(old(out)@) + attachments(v@),
    decreases v, 0nat,
{
    match v {
        Value::Null => Value::Null,
        Value::Bool(b) => Value::Bool(*b),
        Value::Int(n) => Value::Int(*n),
        Value::Float(bits) => Value::Float(*bits),
        Value::Str(s) => Value::Str(s.clone()),
        Value::Placeholder(num) => Value::Placeholder(*num),
        Value::Bytes(b) => {
            let num = out.len() as u64;
            out.push(copy_bytes(b));
            assert(blobs(out@) =~= blobs(old(out)@) + attachments(v@));
            Value::Placeholder(num)
        },
        Value::Array(items) => {
            proof {
                lemma_views_of(items@, items@.len());
            }
            let done = extract_in(items, out);
            Value::Array(done)
        },
        Value::Object { keys, values } => {
            proof {
                lemma_views_of(values@, values@.len());
            }
            let done = extract_in(values, out);
            Value::Object { keys: copy_keys(keys), values: done }
        },
    }
}

fn extract_in(items: &Vec<Value>, out: &mut Vec<Vec<u8>>) -> (r: Vec<Value>)
    ensures
        views(r@) == skeletons_of(views(items@), items@.len(), old(out)@.len()),
        blobs(final(out)@) == blobs(old(out)@) + attachments_of(views(items@), items@.len()),
    decreases items, 0nat,
{
    let ghost all = views(items@);
    let ghost start = out@.len();
    let ghost before = blobs(out@);
    proof {
        lemma_views_of(items@, items@.len());
    }
    let mut r: Vec<Value> = Vec::new();
    let mut i: usize = 0;
    while i < items.len()
        invariant
            i <= items.len(),
            all == views(items@),
            all.len() == items@.len(),
            forall|k: int| 0 <= k < items@.len() ==> all[k] == view_of(#[trigger] items@[k]),
            r@.len() == i,
            forall|k: int|
                0 <= k < i ==> view_of(#[trigger] r@[k]) == skeleton(
                    all[k],
                    start + attachments_of(all, k as nat).len(),
                ),
            before.len() == start,
            blobs(out@) == before + attachments_of(all, i as nat),
        decreases items.len() - i,
    {
        let item = extract(&items[i], out);
        r.push(item);
        assert(blobs(out@) =~= before + attachments_of(all, (i + 1) as nat));
        i += 1;
    }
    proof {
        lemma_views_of(r@, r@.len());
        lemma_skeletons_of(all, all.len(), start);
        assert(views(r@) =~= skeletons_of(all, all.len(), start));
    }
    r
}

/// Puts the blobs back: the result is `v` with each placeholder replaced by
/// the blob of its number, or nothing where a placeholder has a number that
/// `attachments` does not reach.
pub fn fill(v: &Value, attachments: &Vec<Vec<u8>>) -> (r: Option<Value>)
    ensures
        match filled(v@, blobs(attachments@)) {
            Some(done) => r matches Some(value) && value@ == done,
            None => r is None,
        },
    decreases v, 0nat,
{
    match v {
        Value::Null => Some(Value::Null),
        Value::Bool(b) => Some(Value::Bool(*b)),
        Value::Int(n) => Some(Value::Int(*n)),
        Value::Float(bits) => Some(Value::Float(*bits)),
        Value::Str(s) => Some(Value::Str(s.clone())),
        Value::Bytes(b) => Some(Value::Bytes(copy_bytes(b))),
        Value::Placeholder(num) => {
            if *num < attachments.len() as u64 {
                Some(Value::Bytes(copy_bytes(&attachments[*num as usize])))
            } else {
                None
            }
        },
        Value::Array(items) => {
            proof {
                lemma_views_of(items@, items@.len());
            }
            match fill_in(items, attachments) {
                Some(done) => Some(Value::Array(done)),
                None => None,
            }
        },
        Value::Object { keys, values } => {
            proof {
                lemma_views_of(values@, values@.len());
            }
            match fill_in(values, attachments) {
                Some(done) => Some(Value::Object { keys: copy_keys(keys), values: done }),
                None => None,
            }
        },
    }
}

fn fill_in(items: &Vec<Value>, attachments: &Vec<Vec<u8>>) -> (r: Option<Vec<Value>>)
    ensures
        match filled_of(views(items@), items@.len(), blobs(attachments@)) {
            Some(done) => r matches Some(values) && views(values@) == done,
            None => r is None,
        },
    decreases items, 0nat,
{
    let ghost all = views(items@);
    let ghost given = blobs(attachments@);
    proof {
        lemma_views_of(items@, items@.len());
    }
    let mut r: Vec<Value> = Vec::new();
    let mut i: usize = 0;
    while i < items.len()
        invariant
            i <= items.len(),
            all == views(items@),
            all.len() == items@.len(),
            given == blobs(attachments@),
            forall|k: int| 0 <= k < items@.len() ==> all[k] == view_of(#[trigger] items@[k]),
            r@.len() == i,
            filled_of(all, i as nat, given) matches Some(done) && done == views(r@),
        decreases items.len() - i,
    {
        let ghost front = views(r@);
        proof {
            lemma_views_of(r@, r@.len());
        }
        let item = match fill(&items[i], attachments) {
            Some(item) => item,
            None => {
                proof {
                    assert(filled_of(all, (i + 1) as nat, given) is None);
                    lemma_filled_none(all, (i + 1) as nat, all.len(), given);
                }
                return None;
            },
        };
        r.push(item);
        proof {
            lemma_views_of(r@, r@.len());
            assert(views(r@) =~= front.push(view_of(item)));
        }
        i += 1;
    }
    Some(r)
}

/// Where a front cannot be filled, no longer front can.
pub proof fn lemma_filled_none(items: Seq<ValueView>, n: nat, m: nat, blobs: Seq<Seq<u8>>)
    requires
        n <= m <= items.len(),
        filled_of(items, n, blobs) is None,
    ensures
        filled_of(items, m, blobs) is None,
    decreases m - n,
{
    if n < m {
        lemma_filled_none(items, n, (m - 1) as nat, blobs);
    }
}

proof fn lemma_plain_of(items: Seq<ValueView>, n: nat, m: nat)
    requires
        n <= m <= items.len(),
        plain_of(items, m),
    ensures
        plain_of(items, n),
        n < m ==> plain(items[n as int]),
    decreases m - n,
{
    if n < m {
        lemma_plain_of(items, (n + 1) as nat, m);
    }
}

/// Filling the skeleton of a value that holds no placeholder gives the value
/// back, whenever the blobs that were taken out of it stand in `blobs` from
/// `start` on: each attachment returns to the very place it came from.
pub proof fn lemma_fill_skeleton(v: ValueView, start: nat, blobs: Seq<Seq<u8>>)
    requires
        plain(v),
        start + attachments(v).len() <= blobs.len(),
        blobs.subrange(start as int, (start + attachments(v).len()) as int) == attachments(v),
    ensures
        filled(skeleton(v, start), blobs) == Some(v),
    decreases v, 0nat,
{
    match v {
        ValueView::Bytes(b) => {
            assert(blobs.subrange(start as int, (start + attachments(v).len()) as int)[0] == b);
        },
        ValueView::Array(items) => {
            lemma_skeletons_of(items, items.len(), start);
            lemma_fill_skeletons(items, items.len(), start, blobs);
            assert(items.take(items.len() as int) =~= items);
        },
        ValueView::Object(keys, values) => {
            lemma_skeletons_of(values, values.len(), start);
            lemma_fill_skeletons(values, values.len(), start, blobs);
            assert(values.take(values.len() as int) =~= values);
        },
        _ => {},
    }
}

proof fn lemma_fill_skeletons(items: Seq<ValueView>, n: nat, start: nat, blobs: Seq<Seq<u8>>)
    requires
        n <= items.len(),
        plain_of(items, items.len()),
        start + attachments_of(items, items.len()).len() <= blobs.len(),
        blobs.subrange(start as int, (start + attachments_of(items, items.len()).len()) as int)
            == attachments_of(items, items.len()),
    ensures
        filled_of(skeletons_of(items, items.len(), start), n, blobs) == Some(items.take(n as int)),
    decreases items, n,
{
    let all = attachments_of(items, items.len());
    let marked = skeletons_of(items, items.len(), start);
    lemma_skeletons_of(items, items.len(), start);
    if n == 0 {
        assert(items.take(0) =~= Seq::<ValueView>::empty());
    } else {
        let last = items[n - 1];
        let before = attachments_of(items, (n - 1) as nat);
        lemma_fill_skeletons(items, (n - 1) as nat, start, blobs);
        lemma_plain_of(items, (n - 1) as nat, items.len());
        lemma_attachments_prefix(items, n, items.len());
        assert(marked[n - 1] == skeleton(last, start + before.len()));
        assert(attachments_of(items, n) == before + attachments(last));
        assert(blobs.subrange((start + before.len()) as int, (start + before.len() + attachments(last).len()) as int)
            =~= attachments(last)) by {
            let part = blobs.subrange(
                (start + before.len()) as int,
                (start + before.len() + attachments(last).len()) as int,
            );
            assert forall|k: int| 0 <= k < attachments(last).len() implies part[k] == attachments(
                last,
            )[k] by {
                assert(part[k] == blobs.subrange(start as int, (start + all.len()) as int)[before.len() + k]);
                assert(all.take(attachments_of(items, n).len() as int)[before.len() + k]
                    == all[before.len() + k]);
            }
        }
        lemma_fill_skeleton(last, start + before.len(), blobs);
        assert(items.take(n - 1).push(last) =~= items.take(n as int));
    }
}

/// Taking the blobs out of a value and putting them back, in the same order,
/// gives the value back.
pub proof fn lemma_attachments_return(v: ValueView)
    requires
        plain(v),
    ensures
        filled(skeleton(v, 0), attachments(v)) == Some(v),
{
    assert(attachments(v).subrange(0, attachments(v).len() as int) =~= attachments(v));
    lemma_fill_skeleton(v, 0, attachments(v));
}

} // verus!
