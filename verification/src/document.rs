//! The structured key/value document that configuration sources are read
//! into, and the recursive key-wise merge that layers them: later sources
//! overwrite matching keys of earlier ones, keys absent from the later
//! source keep their earlier values, and nested tables merge recursively
//! rather than being replaced wholesale.

use vstd::prelude::*;

verus! {

/// The mathematical model of a document node.
#[verifier::ext_equal]
pub enum Doc {
    Str(Seq<char>),
    Bool(bool),
    Int(int),
    Table(Seq<(Seq<char>, Doc)>),
}

/// The entry list of a table node, in the model.
pub type Entries = Seq<(Seq<char>, Doc)>;

/// A document node: a scalar, or a table of named child nodes.
pub enum Value {
    Str(String),
    Bool(bool),
    Int(i64),
    Table(Vec<(String, Value)>),
}

impl View for Value {
    type V = Doc;

    open spec fn view(&self) -> Doc
        decreases self,
    {
        match self {
            Value::Str(s) => Doc::Str(s@),
            Value::Bool(b) => Doc::Bool(*b),
            Value::Int(i) => Doc::Int(*i as int),
            Value::Table(es) => Doc::Table(entries_view(es@)),
        }
    }
}

/// The model of a table's entry list.
pub open spec fn entries_view(es: Seq<(String, Value)>) -> Entries
    decreases es,
{
    if es.len() == 0 {
        Seq::empty()
    } else {
        seq![(es[0].0@, es[0].1@)] + entries_view(es.drop_first())
    }
}

/// The model of an entry list, stated entry by entry.
pub broadcast proof fn lemma_entries_view(es: Seq<(String, Value)>)
    ensures
        (#[trigger] entries_view(es)).len() == es.len(),
        forall|i: int| 0 <= i < es.len() ==> entries_view(es)[i] == (es[i].0@, es[i].1@),
    decreases es.len(),
{
    if es.len() > 0 {
        lemma_entries_view(es.drop_first());
        assert(entries_view(es) == seq![(es[0].0@, es[0].1@)] + entries_view(es.drop_first()));
        assert(entries_view(es).len() == es.len());
        assert forall|i: int| 0 <= i < es.len() implies entries_view(es)[i] == (
        es[i].0@,
        es[i].1@,
        ) by {
            if i == 0 {
                assert(entries_view(es)[0] == (es[0].0@, es[0].1@));
            } else {
                assert(entries_view(es)[i] == entries_view(es.drop_first())[i - 1]);
                assert(es.drop_first()[i - 1] == es[i]);
            }
        }
    } else {
        assert(entries_view(es) == Seq::<(Seq<char>, Doc)>::empty());
    }
}

/// The value under key `k`: the first entry with that key wins.
pub open spec fn get_entry(es: Entries, k: Seq<char>) -> Option<Doc>
    decreases es.len(),
{
    if es.len() == 0 {
        None
    } else if es[0].0 == k {
        Some(es[0].1)
    } else {
        get_entry(es.drop_first(), k)
    }
}

/// Whether a table's entry list holds key `k`.
pub open spec fn has_key(es: Entries, k: Seq<char>) -> bool {
    get_entry(es, k) is Some
}

/// The child of `d` under key `k`; `None` when `d` is not a table or the
/// key is absent.
pub open spec fn doc_get(d: Doc, k: Seq<char>) -> Option<Doc> {
    match d {
        Doc::Table(es) => get_entry(es, k),
        _ => None,
    }
}

/// The node reached from `d` by following `path`, one key per step.
pub open spec fn doc_get_path(d: Doc, path: Seq<Seq<char>>) -> Option<Doc>
    decreases path.len(),
{
    if path.len() == 0 {
        Some(d)
    } else {
        match doc_get(d, path[0]) {
            Some(c) => doc_get_path(c, path.drop_first()),
            None => None,
        }
    }
}

/// One merged entry of the base table: the overriding table's value for the
/// same key wins, merging recursively when both values are tables.
pub open spec fn merged_entry(e: (Seq<char>, Doc), ot: Entries) -> (Seq<char>, Doc)
    decreases e, ot,
{
    match get_entry(ot, e.0) {
        Some(ov) => (e.0, merge_doc(e.1, ov)),
        None => e,
    }
}

/// The base table's entries after the overriding table has been applied to
/// each, in base order.
pub open spec fn merged_base(bt: Entries, ot: Entries) -> Entries
    decreases bt, ot,
{
    if bt.len() == 0 {
        Seq::empty()
    } else {
        merged_base(bt.drop_last(), ot).push(merged_entry(bt.last(), ot))
    }
}

/// The overriding table's entries whose keys the base table lacks, in their
/// original order.
pub open spec fn novel_entries(ot: Entries, bt: Entries) -> Entries
    decreases ot.len(),
{
    if ot.len() == 0 {
        Seq::empty()
    } else if has_key(bt, ot[0].0) {
        novel_entries(ot.drop_first(), bt)
    } else {
        seq![ot[0]] + novel_entries(ot.drop_first(), bt)
    }
}

/// The key-wise merge of two documents: when both are tables, each key of
/// either appears once, with the overriding side winning and nested tables
/// merged recursively; otherwise the overriding document replaces the base.
pub open spec fn merge_doc(b: Doc, o: Doc) -> Doc
    decreases b, o,
{
    match (b, o) {
        (Doc::Table(bt), Doc::Table(ot)) => Doc::Table(
            merged_base(bt, ot) + novel_entries(ot, bt),
        ),
        (_, other) => other,
    }
}

/// The merged base entries, stated entry by entry.
pub broadcast proof fn lemma_merged_base_pointwise(bt: Entries, ot: Entries)
    ensures
        (#[trigger] merged_base(bt, ot)).len() == bt.len(),
        forall|i: int| 0 <= i < bt.len() ==> merged_base(bt, ot)[i] == merged_entry(bt[i], ot),
    decreases bt.len(),
{
    if bt.len() > 0 {
        lemma_merged_base_pointwise(bt.drop_last(), ot);
    }
}

/// Looking a key up in concatenated entry lists searches the first list,
/// then the second.
pub proof fn lemma_get_entry_add(a: Entries, b: Entries, k: Seq<char>)
    ensures
        get_entry(a + b, k) == (if has_key(a, k) {
            get_entry(a, k)
        } else {
            get_entry(b, k)
        }),
    decreases a.len(),
{
    if a.len() == 0 {
        assert(a + b =~= b);
        assert(get_entry(a, k) is None);
    } else {
        assert((a + b).len() > 0);
        assert((a + b)[0] == a[0]);
        if a[0].0 == k {
            assert(get_entry(a + b, k) == Some((a + b)[0].1));
            assert(get_entry(a, k) == Some(a[0].1));
        } else {
            assert(get_entry(a + b, k) == get_entry((a + b).drop_first(), k));
            assert(get_entry(a, k) == get_entry(a.drop_first(), k));
            assert((a + b).drop_first() =~= a.drop_first() + b);
            lemma_get_entry_add(a.drop_first(), b, k);
        }
    }
}

/// Looking a key up among the merged base entries finds the base entry for
/// that key, with the override applied.
proof fn lemma_get_entry_merged_base_rec(m: Entries, bt: Entries, ot: Entries, k: Seq<char>)
    requires
        m.len() == bt.len(),
        forall|i: int| 0 <= i < bt.len() ==> m[i] == merged_entry(bt[i], ot),
    ensures
        get_entry(m, k) == (match get_entry(bt, k) {
            Some(v) => Some(
                match get_entry(ot, k) {
                    Some(ov) => merge_doc(v, ov),
                    None => v,
                },
            ),
            None => None::<Doc>,
        }),
    decreases bt.len(),
{
    if bt.len() > 0 {
        assert(m[0] == merged_entry(bt[0], ot));
        assert(m[0].0 == bt[0].0);
        if bt[0].0 == k {
            assert(get_entry(m, k) == Some(m[0].1));
            assert(get_entry(bt, k) == Some(bt[0].1));
        } else {
            assert(get_entry(m, k) == get_entry(m.drop_first(), k));
            assert(get_entry(bt, k) == get_entry(bt.drop_first(), k));
            assert(forall|i: int|
                0 <= i < bt.drop_first().len() ==> m.drop_first()[i] == merged_entry(
                    bt.drop_first()[i],
                    ot,
                ));
            lemma_get_entry_merged_base_rec(m.drop_first(), bt.drop_first(), ot, k);
        }
    }
}

pub proof fn lemma_get_entry_merged_base(bt: Entries, ot: Entries, k: Seq<char>)
    ensures
        get_entry(merged_base(bt, ot), k) == (match get_entry(bt, k) {
            Some(v) => Some(
                match get_entry(ot, k) {
                    Some(ov) => merge_doc(v, ov),
                    None => v,
                },
            ),
            None => None::<Doc>,
        }),
{
    broadcast use lemma_merged_base_pointwise;

    lemma_get_entry_merged_base_rec(merged_base(bt, ot), bt, ot, k);
}

/// Looking a key up among the novel entries finds the overriding table's
/// value exactly when the base table lacks the key.
pub proof fn lemma_get_entry_novel(ot: Entries, bt: Entries, k: Seq<char>)
    ensures
        get_entry(novel_entries(ot, bt), k) == (if has_key(bt, k) {
            None::<Doc>
        } else {
            get_entry(ot, k)
        }),
    decreases ot.len(),
{
    if ot.len() == 0 {
        assert(novel_entries(ot, bt) == Seq::<(Seq<char>, Doc)>::empty());
    } else {
        lemma_get_entry_novel(ot.drop_first(), bt, k);
        assert(get_entry(ot, k) == (if ot[0].0 == k {
            Some(ot[0].1)
        } else {
            get_entry(ot.drop_first(), k)
        }));
        if has_key(bt, ot[0].0) {
            assert(novel_entries(ot, bt) == novel_entries(ot.drop_first(), bt));
        } else {
            let rest = novel_entries(ot.drop_first(), bt);
            assert(novel_entries(ot, bt) == seq![ot[0]] + rest);
            assert((seq![ot[0]] + rest).len() > 0);
            assert((seq![ot[0]] + rest)[0] == ot[0]);
            if ot[0].0 == k {
                assert(get_entry(novel_entries(ot, bt), k) == Some(ot[0].1));
            } else {
                assert(get_entry(novel_entries(ot, bt), k) == get_entry(
                    (seq![ot[0]] + rest).drop_first(),
                    k,
                ));
                assert((seq![ot[0]] + rest).drop_first() =~= rest);
            }
        }
    }
}

/// What the merge of two tables holds under each key: the overriding
/// table's value where only it has the key, the base value where only the
/// base has it, and their recursive merge where both do.
pub proof fn lemma_merge_doc_get(b: Doc, o: Doc, k: Seq<char>)
    requires
        b is Table,
        o is Table,
    ensures
        doc_get(merge_doc(b, o), k) == (match doc_get(b, k) {
            Some(v) => Some(
                match doc_get(o, k) {
                    Some(ov) => merge_doc(v, ov),
                    None => v,
                },
            ),
            None => doc_get(o, k),
        }),
{
    let bt = b->Table_0;
    let ot = o->Table_0;
    lemma_get_entry_add(merged_base(bt, ot), novel_entries(ot, bt), k);
    lemma_get_entry_merged_base(bt, ot, k);
    lemma_get_entry_novel(ot, bt, k);
    broadcast use lemma_merged_base_pointwise;

    if has_key(merged_base(bt, ot), k) {
        assert(has_key(bt, k)) by {
            lemma_get_entry_merged_base_rec(merged_base(bt, ot), bt, ot, k);
        }
    }
}

/// Appending one entry to the overriding table extends its novel entries by
/// that entry exactly when the base table lacks its key.
pub proof fn lemma_novel_entries_push(ot: Entries, bt: Entries, e: (Seq<char>, Doc))
    ensures
        novel_entries(ot.push(e), bt) == (if has_key(bt, e.0) {
            novel_entries(ot, bt)
        } else {
            novel_entries(ot, bt).push(e)
        }),
    decreases ot.len(),
{
    let empty = Seq::<(Seq<char>, Doc)>::empty();
    if ot.len() == 0 {
        let single = ot.push(e);
        assert(single.len() == 1);
        assert(single[0] == e);
        assert(single.drop_first() =~= empty);
        assert(novel_entries(empty, bt) == empty);
        assert(novel_entries(ot, bt) == empty);
        if has_key(bt, e.0) {
            assert(novel_entries(single, bt) == novel_entries(single.drop_first(), bt));
        } else {
            assert(novel_entries(single, bt) == seq![e] + novel_entries(
                single.drop_first(),
                bt,
            ));
            assert(seq![e] + empty =~= novel_entries(ot, bt).push(e));
        }
    } else {
        let oe = ot.push(e);
        assert(oe.len() == ot.len() + 1);
        assert(oe[0] == ot[0]);
        assert(oe.drop_first() =~= ot.drop_first().push(e));
        lemma_novel_entries_push(ot.drop_first(), bt, e);
        if has_key(bt, ot[0].0) {
            assert(novel_entries(oe, bt) == novel_entries(oe.drop_first(), bt));
            assert(novel_entries(ot, bt) == novel_entries(ot.drop_first(), bt));
        } else {
            assert(novel_entries(oe, bt) == seq![oe[0]] + novel_entries(oe.drop_first(), bt));
            assert(novel_entries(ot, bt) == seq![ot[0]] + novel_entries(ot.drop_first(), bt));
            if !has_key(bt, e.0) {
                assert(seq![ot[0]] + novel_entries(ot.drop_first(), bt).push(e) =~= (seq![ot[0]]
                    + novel_entries(ot.drop_first(), bt)).push(e));
            }
        }
    }
}

impl Value {
    /// A structural copy of this document node, equal to it in the model.
    #[verifier::loop_isolation(false)]
    pub fn deep_copy(&self) -> (r: Value)
        ensures
            r@ == self@,
        decreases self,
    {
        match self {
            Value::Str(s) => Value::Str(s.clone()),
            Value::Bool(b) => Value::Bool(*b),
            Value::Int(i) => Value::Int(*i),
            Value::Table(es) => {
                let mut out: Vec<(String, Value)> = Vec::new();
                let mut i: usize = 0;
                while i < es.len()
                    invariant
                        i <= es.len(),
                        out@.len() == i,
                        forall|j: int|
                            0 <= j < i ==> #[trigger] entries_view(out@)[j] == entries_view(
                                es@,
                            )[j],
                    decreases es.len() - i,
                {
                    proof {
                        assert(*self == Value::Table(*es));
                        assert(decreases_to!(*self => *es));
                        vstd::std_specs::vec::axiom_vec_index_decreases(*es, i as int);
                        assert(decreases_to!(es@[i as int] => es@[i as int].1));
                    }
                    let k = es[i].0.clone();
                    let v = es[i].1.deep_copy();
                    let ghost prev = out@;
                    out.push((k, v));
                    proof {
                        lemma_entries_view(prev);
                        lemma_entries_view(out@);
                        lemma_entries_view(es@);
                        assert(out@ == prev.push((k, v)));
                        assert forall|j: int|
                            0 <= j < i + 1 implies entries_view(out@)[j] == entries_view(
                            es@,
                        )[j] by {
                            if j < i {
                                assert(out@[j] == prev[j]);
                                assert(entries_view(out@)[j] == (prev[j].0@, prev[j].1@));
                                assert(entries_view(prev)[j] == (prev[j].0@, prev[j].1@));
                            } else {
                                assert(out@[j] == (k, v));
                            }
                        }
                    }
                    i += 1;
                }
                proof {
                    lemma_entries_view(out@);
                    lemma_entries_view(es@);
                    assert(entries_view(out@) =~= entries_view(es@));
                }
                Value::Table(out)
            },
        }
    }
}

/// A borrow of the value under key `k`, or `None` when the key is absent.
#[verifier::loop_isolation(false)]
pub fn table_get<'a>(es: &'a Vec<(String, Value)>, k: &str) -> (r: Option<&'a Value>)
    ensures
        match r {
            Some(v) => get_entry(entries_view(es@), k@) == Some(v@),
            None => get_entry(entries_view(es@), k@) is None,
        },
{
    broadcast use lemma_entries_view;

    let ghost esv = entries_view(es@);
    let mut i: usize = 0;
    while i < es.len()
        invariant
            i <= es.len(),
            esv == entries_view(es@),
            esv.len() == es@.len(),
            forall|j: int| 0 <= j < i ==> esv[j].0 != k@,
        decreases es.len() - i,
    {
        if crate::text::str_eq(es[i].0.as_str(), k) {
            proof {
                lemma_get_entry_skip(esv, k@, i as int);
                assert(esv[i as int] == (es@[i as int].0@, es@[i as int].1@));
                assert(esv.skip(i as int).len() > 0);
                assert(esv.skip(i as int)[0] == esv[i as int]);
                assert(get_entry(esv.skip(i as int), k@) == Some(esv[i as int].1));
            }
            return Some(&es[i].1);
        }
        proof {
            assert(esv[i as int] == (es@[i as int].0@, es@[i as int].1@));
        }
        i += 1;
    }
    proof {
        lemma_get_entry_skip(esv, k@, i as int);
        assert(esv.skip(i as int).len() == 0);
        assert(get_entry(esv.skip(i as int), k@) is None);
    }
    None
}

/// Skipping entries whose keys all differ from `k` leaves the lookup
/// result unchanged.
proof fn lemma_get_entry_skip(es: Entries, k: Seq<char>, i: int)
    requires
        0 <= i <= es.len(),
        forall|j: int| 0 <= j < i ==> es[j].0 != k,
    ensures
        get_entry(es, k) == get_entry(es.skip(i), k),
    decreases i,
{
    if i == 0 {
        assert(es.skip(0) =~= es);
    } else {
        assert(es.len() > 0);
        assert(es[0].0 != k);
        assert(get_entry(es, k) == get_entry(es.drop_first(), k));
        assert(es.drop_first() =~= es.skip(1));
        assert(forall|j: int| 0 <= j < i - 1 ==> es.skip(1)[j].0 != k);
        lemma_get_entry_skip(es.skip(1), k, i - 1);
        assert(es.skip(1).skip(i - 1) =~= es.skip(i));
    }
}

/// The key-wise merge of two document nodes; `over` wins where both define
/// a key, and nested tables merge recursively.
#[verifier::loop_isolation(false)]
pub fn merge(base: &Value, over: &Value) -> (r: Value)
    ensures
        r@ == merge_doc(base@, over@),
    decreases base, over,
{
    broadcast use lemma_entries_view;

    match (base, over) {
        (Value::Table(bt), Value::Table(ot)) => {
            let ghost btv = entries_view(bt@);
            let ghost otv = entries_view(ot@);
            let mut out: Vec<(String, Value)> = Vec::new();
            let mut i: usize = 0;
            while i < bt.len()
                invariant
                    i <= bt.len(),
                    base is Table,
                    over is Table,
                    *base == Value::Table(*bt),
                    *over == Value::Table(*ot),
                    btv == entries_view(bt@),
                    otv == entries_view(ot@),
                    btv.len() == bt@.len(),
                    out@.len() == i,
                    entries_view(out@) == merged_base(btv.take(i as int), otv),
                decreases bt.len() - i,
            {
                proof {
                    broadcast use lemma_merged_base_pointwise;

                    assert(btv[i as int] == (bt@[i as int].0@, bt@[i as int].1@));
                }
                let k = &bt[i].0;
                let v = &bt[i].1;
                proof {
                    assert(decreases_to!(*base => base->Table_0));
                    assert(base->Table_0 == *bt);
                    assert(decreases_to!(*bt => bt@));
                    assert(decreases_to!(bt@ => bt@[i as int]));
                    assert(decreases_to!(bt@[i as int] => bt@[i as int].1));
                }
                let m: Value = match table_get(ot, k.as_str()) {
                    Some(ov) => merge(v, ov),
                    None => v.deep_copy(),
                };
                proof {
                    assert(merged_entry(btv[i as int], otv) == (k@, m@));
                }
                out.push((k.clone(), m));
                proof {
                    let t1 = btv.take(i + 1 as int);
                    assert(t1.len() == i + 1);
                    assert(t1.drop_last() =~= btv.take(i as int));
                    assert(t1.last() == btv[i as int]);
                    assert(merged_base(t1, otv) == merged_base(btv.take(i as int), otv).push(
                        (k@, m@),
                    ));
                    assert(entries_view(out@).len() == out@.len());
                    assert(forall|q: int|
                        0 <= q < out@.len() ==> #[trigger] entries_view(out@)[q] == (out@[q].0@,
                        out@[q].1@));
                    assert(entries_view(out@) =~= merged_base(btv.take(i as int), otv).push(
                        (k@, m@),
                    ));
                }
                i += 1;
            }
            proof {
                assert(btv.take(bt@.len() as int) =~= btv);
                assert(otv.take(0) =~= Seq::<(Seq<char>, Doc)>::empty());
                assert(novel_entries(otv.take(0), btv) == Seq::<(Seq<char>, Doc)>::empty());
                assert(merged_base(btv, otv) + novel_entries(otv.take(0), btv) =~= merged_base(
                    btv,
                    otv,
                ));
            }
            let mut j: usize = 0;
            while j < ot.len()
                invariant
                    j <= ot.len(),
                    btv == entries_view(bt@),
                    otv == entries_view(ot@),
                    otv.len() == ot@.len(),
                    btv.len() == bt@.len(),
                    entries_view(out@) == merged_base(btv, otv) + novel_entries(
                        otv.take(j as int),
                        btv,
                    ),
                decreases ot.len() - j,
            {
                proof {
                    assert(otv[j as int] == (ot@[j as int].0@, ot@[j as int].1@));
                }
                let k = &ot[j].0;
                let dup = match table_get(bt, k.as_str()) {
                    Some(_) => true,
                    None => false,
                };
                proof {
                    let t1 = otv.take(j + 1 as int);
                    assert(t1 =~= otv.take(j as int).push(otv[j as int]));
                    lemma_novel_entries_push(otv.take(j as int), btv, otv[j as int]);
                }
                if !dup {
                    let cv = ot[j].1.deep_copy();
                    let ghost prev = out@;
                    out.push((k.clone(), cv));
                    proof {
                        lemma_entries_view(prev);
                        lemma_entries_view(out@);
                        assert(novel_entries(otv.take(j + 1 as int), btv) == novel_entries(
                            otv.take(j as int),
                            btv,
                        ).push((k@, cv@)));
                        let goal = merged_base(btv, otv) + novel_entries(
                            otv.take(j + 1 as int),
                            btv,
                        );
                        assert(goal == entries_view(prev).push((k@, cv@)));
                        assert forall|q: int|
                            0 <= q < out@.len() implies entries_view(out@)[q] == goal[q] by {
                            if q < prev.len() {
                                assert(out@[q] == prev[q]);
                                assert(entries_view(out@)[q] == (prev[q].0@, prev[q].1@));
                                assert(entries_view(prev)[q] == (prev[q].0@, prev[q].1@));
                            } else {
                                assert(entries_view(out@)[q] == (out@[q].0@, out@[q].1@));
                                assert(out@[q].1 == cv);
                                assert(out@[q].0@ == k@);
                            }
                        }
                        assert(entries_view(out@) =~= goal);
                    }
                } else {
                    proof {
                        assert(novel_entries(otv.take(j + 1 as int), btv) == novel_entries(
                            otv.take(j as int),
                            btv,
                        ));
                    }
                }
                j += 1;
            }
            proof {
                assert(otv.take(ot@.len() as int) =~= otv);
            }
            Value::Table(out)
        },
        _ => over.deep_copy(),
    }
}

} // verus!
