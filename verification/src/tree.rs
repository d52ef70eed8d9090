use vstd::prelude::*;

verus! {

/// A node of the intermediate configuration tree that the source layering
/// engine produces and the typed binder consumes.  Scalars carry the raw
/// value from a source; tables are ordered key/value lists; lists hold the
/// elements of a YAML sequence.
#[derive(Debug)]
pub enum Node {
    Null,
    Bool(bool),
    Int(i64),
    Str(String),
    List(Vec<Node>),
    Table(Vec<(String, Node)>),
}

/// The mathematical shape of a [`Node`]: the same tree over `Seq<char>`
/// and `Seq` instead of `String` and `Vec`.
pub ghost enum ValV {
    Null,
    Bool(bool),
    Int(i64),
    Str(Seq<char>),
    List(Seq<ValV>),
    Table(Seq<(Seq<char>, ValV)>),
}

pub open spec fn val_view(v: Node) -> ValV
    decreases v,
{
    match v {
        Node::Null => ValV::Null,
        Node::Bool(b) => ValV::Bool(b),
        Node::Int(i) => ValV::Int(i),
        Node::Str(s) => ValV::Str(s@),
        Node::List(xs) => ValV::List(list_view(xs@)),
        Node::Table(es) => ValV::Table(tbl_view(es@)),
    }
}

pub open spec fn list_view(s: Seq<Node>) -> Seq<ValV>
    decreases s,
{
    if s.len() == 0 {
        Seq::empty()
    } else {
        seq![val_view(s[0])] + list_view(s.drop_first())
    }
}

pub open spec fn tbl_view(s: Seq<(String, Node)>) -> Seq<(Seq<char>, ValV)>
    decreases s,
{
    if s.len() == 0 {
        Seq::empty()
    } else {
        seq![(s[0].0@, val_view(s[0].1))] + tbl_view(s.drop_first())
    }
}

impl View for Node {
    type V = ValV;

    open spec fn view(&self) -> ValV {
        val_view(*self)
    }
}

pub proof fn lemma_list_view(s: Seq<Node>)
    ensures
        list_view(s).len() == s.len(),
        forall|i: int|
            #![trigger s[i]]
            #![trigger list_view(s)[i]]
            0 <= i < s.len() ==> list_view(s)[i] == val_view(s[i]),
    decreases s.len(),
{
    if s.len() > 0 {
        lemma_list_view(s.drop_first());
    }
}

pub proof fn lemma_tbl_view(s: Seq<(String, Node)>)
    ensures
        tbl_view(s).len() == s.len(),
        forall|i: int|
            #![trigger s[i]]
            #![trigger tbl_view(s)[i]]
            0 <= i < s.len() ==> tbl_view(s)[i] == (s[i].0@, val_view(s[i].1)),
    decreases s.len(),
{
    if s.len() > 0 {
        lemma_tbl_view(s.drop_first());
    }
}

/// The first value bound to key `k` in the entry list `es`, if any.
pub open spec fn tbl_find(es: Seq<(Seq<char>, ValV)>, k: Seq<char>) -> Option<ValV>
    decreases es.len(),
{
    if es.len() == 0 {
        None
    } else if es[0].0 == k {
        Some(es[0].1)
    } else {
        tbl_find(es.drop_first(), k)
    }
}

/// The value bound to key `k` at the top level of tree `t`: `None` when
/// `t` is not a table or lacks the key.
pub open spec fn get_v(t: ValV, k: Seq<char>) -> Option<ValV> {
    match t {
        ValV::Table(es) => tbl_find(es, k),
        _ => None,
    }
}

impl Node {
    /// A deep copy whose view is the view of `self`.
    pub fn duplicate(&self) -> (r: Node)
        ensures
            r@ == self@,
        decreases self,
    {
        match self {
            Node::Null => Node::Null,
            Node::Bool(b) => Node::Bool(*b),
            Node::Int(i) => Node::Int(*i),
            Node::Str(s) => Node::Str(s.clone()),
            Node::List(xs) => {
                let mut out: Vec<Node> = Vec::new();
                let mut i: usize = 0;
                proof {
                    lemma_list_view(xs@);
                    assert(decreases_to!(*self => xs@));
                }
                while i < xs.len()
                    invariant
                        decreases_to!(*self => xs@),
                        i <= xs.len(),
                        list_view(xs@).len() == xs@.len(),
                        forall|j: int|
                            0 <= j < xs@.len() ==> list_view(xs@)[j] == val_view(#[trigger] xs@[j]),
                        out@.len() == i,
                        forall|j: int|
                            0 <= j < i ==> val_view(#[trigger] out@[j]) == val_view(xs@[j]),
                    decreases xs.len() - i,
                {
                    proof {
                        assert(decreases_to!(xs@ => xs@[i as int]));
                        assert(decreases_to!(*self => xs@[i as int]));
                    }
                    let c = xs[i].duplicate();
                    out.push(c);
                    i += 1;
                }
                proof {
                    lemma_list_view(out@);
                    assert(list_view(out@) =~= list_view(xs@));
                }
                Node::List(out)
            },
            Node::Table(es) => {
                let mut out: Vec<(String, Node)> = Vec::new();
                let mut i: usize = 0;
                proof {
                    lemma_tbl_view(es@);
                    assert(decreases_to!(*self => es@));
                }
                while i < es.len()
                    invariant
                        decreases_to!(*self => es@),
                        i <= es.len(),
                        tbl_view(es@).len() == es@.len(),
                        forall|j: int|
                            0 <= j < es@.len() ==> tbl_view(es@)[j] == ((#[trigger] es@[j]).0@,
                            val_view(es@[j].1)),
                        out@.len() == i,
                        forall|j: int|
                            0 <= j < i ==> (#[trigger] out@[j]).0@ == es@[j].0@ && val_view(
                                out@[j].1,
                            ) == val_view(es@[j].1),
                    decreases es.len() - i,
                {
                    proof {
                        assert(decreases_to!(es@ => es@[i as int]));
                        assert(decreases_to!(es@[i as int] => es@[i as int].1));
                        assert(decreases_to!(*self => es@[i as int].1));
                    }
                    let k = es[i].0.clone();
                    let c = es[i].1.duplicate();
                    out.push((k, c));
                    i += 1;
                }
                proof {
                    lemma_tbl_view(out@);
                    assert(tbl_view(out@) =~= tbl_view(es@));
                }
                Node::Table(out)
            },
        }
    }
}

impl Clone for Node {
    fn clone(&self) -> (r: Node)
        ensures
            r@ == self@,
    {
        self.duplicate()
    }
}

/// The first value bound to key `k` in `es`, as executable code.
pub fn table_get<'a>(es: &'a Vec<(String, Node)>, k: &String) -> (r: Option<&'a Node>)
    ensures
        match r {
            Some(v) => tbl_find(tbl_view(es@), k@) == Some(v@),
            None => tbl_find(tbl_view(es@), k@) is None,
        },
{
    proof {
        lemma_tbl_view(es@);
        assert(tbl_view(es@).skip(0) =~= tbl_view(es@));
    }
    let mut i: usize = 0;
    while i < es.len()
        invariant
            i <= es.len(),
            tbl_view(es@).len() == es@.len(),
            forall|j: int|
                0 <= j < es@.len() ==> tbl_view(es@)[j] == ((#[trigger] es@[j]).0@, val_view(
                    es@[j].1,
                )),
            tbl_find(tbl_view(es@), k@) == tbl_find(tbl_view(es@).skip(i as int), k@),
            forall|j: int| 0 <= j < i ==> (#[trigger] es@[j]).0@ != k@,
        decreases es.len() - i,
    {
        proof {
            assert(tbl_view(es@).skip(i as int)[0] == tbl_view(es@)[i as int]);
        }
        if es[i].0 == *k {
            return Some(&es[i].1);
        }
        proof {
            assert(tbl_view(es@).skip(i as int).drop_first() =~= tbl_view(es@).skip(i + 1));
        }
        i += 1;
    }
    proof {
        assert(tbl_view(es@).skip(es@.len() as int).len() == 0);
    }
    None
}

/// Entries of the overlaying table `ys` whose key does not occur in `xs`,
/// in their order of appearance.
pub open spec fn rest_entries(
    xs: Seq<(Seq<char>, ValV)>,
    ys: Seq<(Seq<char>, ValV)>,
) -> Seq<(Seq<char>, ValV)>
    decreases ys.len(),
{
    if ys.len() == 0 {
        Seq::empty()
    } else {
        let first: Seq<(Seq<char>, ValV)> = if tbl_find(xs, ys[0].0) is None {
            seq![ys[0]]
        } else {
            Seq::empty()
        };
        first + rest_entries(xs, ys.drop_first())
    }
}

/// Structural merge of two trees, the second taking precedence: tables
/// merge key by key, recursively; on any other conflict the later tree
/// replaces the earlier one wholesale.
pub open spec fn merge_s(a: ValV, b: ValV) -> ValV
    decreases a,
{
    match (a, b) {
        (ValV::Table(xs), ValV::Table(ys)) => ValV::Table(
            merge_firsts(xs, ys) + rest_entries(xs, ys),
        ),
        _ => b,
    }
}

/// The entries of `xs`, each merged with the entry of the same key in
/// `ys` where one exists.
pub open spec fn merge_firsts(
    xs: Seq<(Seq<char>, ValV)>,
    ys: Seq<(Seq<char>, ValV)>,
) -> Seq<(Seq<char>, ValV)>
    decreases xs,
{
    if xs.len() == 0 {
        Seq::empty()
    } else {
        let m = match tbl_find(ys, xs[0].0) {
            Some(y) => (xs[0].0, merge_s(xs[0].1, y)),
            None => xs[0],
        };
        seq![m] + merge_firsts(xs.drop_first(), ys)
    }
}

proof fn lemma_tbl_view_push(s: Seq<(String, Node)>, e: (String, Node))
    ensures
        tbl_view(s.push(e)) == tbl_view(s).push((e.0@, val_view(e.1))),
    decreases s.len(),
{
    if s.len() == 0 {
        assert(s.push(e).drop_first() =~= s);
        assert(tbl_view(s.push(e)) =~= tbl_view(s).push((e.0@, val_view(e.1))));
    } else {
        assert(s.push(e).drop_first() =~= s.drop_first().push(e));
        lemma_tbl_view_push(s.drop_first(), e);
        assert(tbl_view(s.push(e)) =~= tbl_view(s).push((e.0@, val_view(e.1))));
    }
}

proof fn lemma_merge_firsts_push(
    xs: Seq<(Seq<char>, ValV)>,
    ys: Seq<(Seq<char>, ValV)>,
    e: (Seq<char>, ValV),
)
    ensures
        merge_firsts(xs.push(e), ys) == merge_firsts(xs, ys).push(
            match tbl_find(ys, e.0) {
                Some(y) => (e.0, merge_s(e.1, y)),
                None => e,
            },
        ),
    decreases xs.len(),
{
    let m = match tbl_find(ys, e.0) {
        Some(y) => (e.0, merge_s(e.1, y)),
        None => e,
    };
    if xs.len() == 0 {
        assert(xs.push(e).drop_first() =~= xs);
        assert(merge_firsts(xs.push(e), ys) =~= merge_firsts(xs, ys).push(m));
    } else {
        assert(xs.push(e).drop_first() =~= xs.drop_first().push(e));
        lemma_merge_firsts_push(xs.drop_first(), ys, e);
        assert(merge_firsts(xs.push(e), ys) =~= merge_firsts(xs, ys).push(m));
    }
}

proof fn lemma_rest_entries_push(
    xs: Seq<(Seq<char>, ValV)>,
    ys: Seq<(Seq<char>, ValV)>,
    e: (Seq<char>, ValV),
)
    ensures
        rest_entries(xs, ys.push(e)) == rest_entries(xs, ys) + (if tbl_find(xs, e.0) is None {
            seq![e]
        } else {
            Seq::<(Seq<char>, ValV)>::empty()
        }),
    decreases ys.len(),
{
    let tail: Seq<(Seq<char>, ValV)> = if tbl_find(xs, e.0) is None {
        seq![e]
    } else {
        Seq::empty()
    };
    if ys.len() == 0 {
        assert(ys.push(e).drop_first() =~= ys);
        assert(rest_entries(xs, ys.push(e)) =~= rest_entries(xs, ys) + tail);
    } else {
        assert(ys.push(e).drop_first() =~= ys.drop_first().push(e));
        lemma_rest_entries_push(xs, ys.drop_first(), e);
        assert(rest_entries(xs, ys.push(e)) =~= rest_entries(xs, ys) + tail);
    }
}

/// Structural merge of two trees as executable code.
pub fn merge(a: &Node, b: &Node) -> (r: Node)
    ensures
        r@ == merge_s(a@, b@),
    decreases a,
{
    match (a, b) {
        (Node::Table(xs), Node::Table(ys)) => {
            let ghost xv = tbl_view(xs@);
            let ghost yv = tbl_view(ys@);
            proof {
                lemma_tbl_view(xs@);
                lemma_tbl_view(ys@);
                assert(decreases_to!(*a => xs@));
            }
            let mut out: Vec<(String, Node)> = Vec::new();
            proof {
                assert(tbl_view(out@) =~= merge_firsts(xv.take(0), yv));
            }
            let mut i: usize = 0;
            while i < xs.len()
                invariant
                    decreases_to!(*a => xs@),
                    i <= xs.len(),
                    xv == tbl_view(xs@),
                    yv == tbl_view(ys@),
                    xv.len() == xs@.len(),
                    forall|j: int|
                        #![trigger xs@[j]]
                        0 <= j < xs@.len() ==> xv[j] == (xs@[j].0@, val_view(xs@[j].1)),
                    tbl_view(out@) == merge_firsts(xv.take(i as int), yv),
                decreases xs.len() - i,
            {
                proof {
                    assert(decreases_to!(xs@ => xs@[i as int]));
                    assert(decreases_to!(xs@[i as int] => xs@[i as int].1));
                    assert(decreases_to!(*a => xs@[i as int].1));
                }
                let found = table_get(ys, &xs[i].0);
                let merged: Node = match found {
                    Some(y) => merge(&xs[i].1, y),
                    None => xs[i].1.duplicate(),
                };
                let ghost old_out = out@;
                let key = xs[i].0.clone();
                out.push((key, merged));
                proof {
                    lemma_tbl_view_push(old_out, (key, merged));
                    lemma_merge_firsts_push(xv.take(i as int), yv, xv[i as int]);
                    assert(xv.take(i + 1) =~= xv.take(i as int).push(xv[i as int]));
                    assert(tbl_view(out@) =~= merge_firsts(xv.take(i + 1), yv));
                }
                i += 1;
            }
            proof {
                assert(xv.take(xs@.len() as int) =~= xv);
                assert(rest_entries(xv, yv.take(0)) =~= Seq::empty());
                assert(tbl_view(out@) =~= merge_firsts(xv, yv) + rest_entries(xv, yv.take(0)));
            }
            let mut j: usize = 0;
            while j < ys.len()
                invariant
                    j <= ys.len(),
                    xv == tbl_view(xs@),
                    yv == tbl_view(ys@),
                    yv.len() == ys@.len(),
                    forall|l: int|
                        #![trigger ys@[l]]
                        0 <= l < ys@.len() ==> yv[l] == (ys@[l].0@, val_view(ys@[l].1)),
                    tbl_view(out@) == merge_firsts(xv, yv) + rest_entries(xv, yv.take(j as int)),
                decreases ys.len() - j,
            {
                let ghost old_out = out@;
                let found = table_get(xs, &ys[j].0);
                proof {
                    lemma_rest_entries_push(xv, yv.take(j as int), yv[j as int]);
                    assert(yv.take(j + 1) =~= yv.take(j as int).push(yv[j as int]));
                }
                match found {
                    Some(_) => {
                        proof {
                            assert(rest_entries(xv, yv.take(j + 1)) =~= rest_entries(
                                xv,
                                yv.take(j as int),
                            ));
                        }
                    },
                    None => {
                        let key = ys[j].0.clone();
                        let copy = ys[j].1.duplicate();
                        out.push((key, copy));
                        proof {
                            lemma_tbl_view_push(old_out, (key, copy));
                            assert(tbl_view(out@) =~= merge_firsts(xv, yv) + rest_entries(
                                xv,
                                yv.take(j + 1),
                            ));
                        }
                    },
                }
                j += 1;
            }
            proof {
                assert(yv.take(ys@.len() as int) =~= yv);
            }
            Node::Table(out)
        },
        _ => b.duplicate(),
    }
}

/// The value of tree `t` at key path `p`: follow the path through
/// nested tables.
pub open spec fn lookup_path(t: ValV, p: Seq<Seq<char>>) -> Option<ValV>
    decreases p.len(),
{
    if p.len() == 0 {
        Some(t)
    } else {
        match get_v(t, p[0]) {
            Some(x) => lookup_path(x, p.drop_first()),
            None => None,
        }
    }
}

/// Tree `b` says nothing about key path `p`: along `p` it holds only
/// tables, and the final key is absent.
pub open spec fn omits_path(b: ValV, p: Seq<Seq<char>>) -> bool
    decreases p.len(),
{
    if p.len() == 0 {
        false
    } else {
        match get_v(b, p[0]) {
            None => true,
            Some(y) => y is Table && omits_path(y, p.drop_first()),
        }
    }
}

proof fn lemma_tbl_find_concat(s1: Seq<(Seq<char>, ValV)>, s2: Seq<(Seq<char>, ValV)>, k: Seq<char>)
    ensures
        tbl_find(s1 + s2, k) == match tbl_find(s1, k) {
            Some(x) => Some(x),
            None => tbl_find(s2, k),
        },
    decreases s1.len(),
{
    if s1.len() == 0 {
        assert(s1 + s2 =~= s2);
    } else {
        assert((s1 + s2).drop_first() =~= s1.drop_first() + s2);
        lemma_tbl_find_concat(s1.drop_first(), s2, k);
    }
}

proof fn lemma_find_merge_firsts(
    xs: Seq<(Seq<char>, ValV)>,
    ys: Seq<(Seq<char>, ValV)>,
    k: Seq<char>,
)
    ensures
        tbl_find(merge_firsts(xs, ys), k) == match tbl_find(xs, k) {
            Some(x) => Some(
                match tbl_find(ys, k) {
                    Some(y) => merge_s(x, y),
                    None => x,
                },
            ),
            None => None::<ValV>,
        },
    decreases xs.len(),
{
    if xs.len() > 0 {
        let m = match tbl_find(ys, xs[0].0) {
            Some(y) => (xs[0].0, merge_s(xs[0].1, y)),
            None => xs[0],
        };
        assert(merge_firsts(xs, ys) == seq![m] + merge_firsts(xs.drop_first(), ys));
        assert((seq![m] + merge_firsts(xs.drop_first(), ys))[0] == m);
        assert((seq![m] + merge_firsts(xs.drop_first(), ys)).drop_first() =~= merge_firsts(
            xs.drop_first(),
            ys,
        ));
        lemma_find_merge_firsts(xs.drop_first(), ys, k);
    }
}

proof fn lemma_find_rest(xs: Seq<(Seq<char>, ValV)>, ys: Seq<(Seq<char>, ValV)>, k: Seq<char>)
    ensures
        tbl_find(rest_entries(xs, ys), k) == if tbl_find(xs, k) is None {
            tbl_find(ys, k)
        } else {
            None::<ValV>
        },
    decreases ys.len(),
{
    if ys.len() > 0 {
        let first: Seq<(Seq<char>, ValV)> = if tbl_find(xs, ys[0].0) is None {
            seq![ys[0]]
        } else {
            Seq::empty()
        };
        lemma_find_rest(xs, ys.drop_first(), k);
        if tbl_find(xs, ys[0].0) is None {
            assert((first + rest_entries(xs, ys.drop_first()))[0] == ys[0]);
            assert((first + rest_entries(xs, ys.drop_first())).drop_first() =~= rest_entries(
                xs,
                ys.drop_first(),
            ));
        } else {
            assert(first + rest_entries(xs, ys.drop_first()) =~= rest_entries(xs, ys.drop_first()));
        }
    }
}

/// One level of the merge: a key set by the overlay wins, a key only in
/// the base survives, and on a shared key the values merge recursively.
pub proof fn lemma_merge_get(a: ValV, b: ValV, k: Seq<char>)
    requires
        a is Table,
        b is Table,
    ensures
        get_v(merge_s(a, b), k) == match (get_v(a, k), get_v(b, k)) {
            (Some(x), Some(y)) => Some(merge_s(x, y)),
            (Some(x), None) => Some(x),
            (None, o) => o,
        },
{
    let xs = a->Table_0;
    let ys = b->Table_0;
    lemma_tbl_find_concat(merge_firsts(xs, ys), rest_entries(xs, ys), k);
    lemma_find_merge_firsts(xs, ys, k);
    lemma_find_rest(xs, ys, k);
}

/// A tree that omits a path yields `None` at it.
pub proof fn lemma_omits_none(b: ValV, p: Seq<Seq<char>>)
    requires
        omits_path(b, p),
    ensures
        lookup_path(b, p) is None,
    decreases p.len(),
{
    if p.len() > 0 {
        match get_v(b, p[0]) {
            Some(y) => {
                lemma_omits_none(y, p.drop_first());
            },
            None => {},
        }
    }
}

/// Later source wins: a non-table value that the overlay sets at a path
/// is the merged tree's value at that path, whatever the base held.
pub proof fn lemma_merge_overrides(a: ValV, b: ValV, p: Seq<Seq<char>>)
    requires
        lookup_path(b, p) is Some,
        !(lookup_path(b, p)->Some_0 is Table),
    ensures
        lookup_path(merge_s(a, b), p) == lookup_path(b, p),
    decreases p.len(),
{
    if p.len() == 0 {
        assert(merge_s(a, b) == b);
    } else {
        let y = get_v(b, p[0])->Some_0;
        if a is Table {
            lemma_merge_get(a, b, p[0]);
            match get_v(a, p[0]) {
                Some(xa) => {
                    lemma_merge_overrides(xa, y, p.drop_first());
                },
                None => {},
            }
        }
    }
}

/// Earlier source retained: at a path about which the overlay table says
/// nothing, the merged tree agrees with the base.
pub proof fn lemma_merge_retains(a: ValV, b: ValV, p: Seq<Seq<char>>)
    requires
        b is Table,
        omits_path(b, p),
    ensures
        lookup_path(merge_s(a, b), p) == lookup_path(a, p),
    decreases p.len(),
{
    if !(a is Table) {
        lemma_omits_none(b, p);
    } else {
        lemma_merge_get(a, b, p[0]);
        match get_v(b, p[0]) {
            None => {},
            Some(y) => {
                match get_v(a, p[0]) {
                    None => {
                        lemma_omits_none(y, p.drop_first());
                    },
                    Some(xa) => {
                        if xa is Table {
                            lemma_merge_retains(xa, y, p.drop_first());
                        } else {
                            lemma_omits_none(y, p.drop_first());
                        }
                    },
                }
            },
        }
    }
}

} // verus!
