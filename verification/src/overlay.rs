use vstd::prelude::*;
use crate::environment::lower_char;
use crate::model::pairs_view;
use crate::tree::{
    get_v, lemma_merge_overrides, lookup_path, merge, merge_s, tbl_view, val_view, ValV, Node,
};

verus! {

/// An overlay variable participates when its name begins with the fixed
/// prefix and its own separator, and something follows them.
pub open spec fn has_prefix(name: Seq<char>) -> bool {
    name.len() > 4 && name.take(4) == "APP_"@
}

/// Split on each double-underscore separator, lowercasing every other
/// character: the nested key path a variable name denotes.
pub open spec fn lsplit(s: Seq<char>) -> Seq<Seq<char>>
    decreases s.len(),
{
    if s.len() == 0 {
        seq![Seq::empty()]
    } else if s.len() >= 2 && s[0] == '_' && s[1] == '_' {
        seq![Seq::<char>::empty()] + lsplit(s.skip(2))
    } else {
        let r = lsplit(s.drop_first());
        seq![seq![lower_char(s[0])] + r[0]] + r.drop_first()
    }
}

/// The key path of an overlay variable: what follows the prefix, split
/// on `__`, lowercased.
pub open spec fn key_path_of(name: Seq<char>) -> Seq<Seq<char>> {
    lsplit(name.skip(4))
}

/// A tree that holds exactly one value, at the given key path.
pub open spec fn singleton_v(p: Seq<Seq<char>>, val: ValV) -> ValV
    decreases p.len(),
{
    if p.len() == 0 {
        val
    } else {
        ValV::Table(seq![(p[0], singleton_v(p.drop_first(), val))])
    }
}

/// The tree denoted by an environment snapshot: each prefixed variable,
/// in order, merged onto the accumulated tree as a one-path tree whose
/// leaf is the variable's value as a string.
pub open spec fn overlay_v(entries: Seq<(Seq<char>, Seq<char>)>) -> ValV
    decreases entries.len(),
{
    if entries.len() == 0 {
        ValV::Table(Seq::empty())
    } else {
        let prev = overlay_v(entries.drop_last());
        let e = entries.last();
        if has_prefix(e.0) {
            merge_s(prev, singleton_v(key_path_of(e.0), ValV::Str(e.1)))
        } else {
            prev
        }
    }
}

proof fn lemma_lsplit_nonempty(s: Seq<char>)
    ensures
        lsplit(s).len() >= 1,
    decreases s.len(),
{
    if s.len() == 0 {
    } else if s.len() >= 2 && s[0] == '_' && s[1] == '_' {
    } else {
    }
}

/// Relies on `String::push` of std: appends one character to the string.
#[verifier::external_body]
fn push_char(s: &mut String, c: char)
    ensures
        final(s)@ == old(s)@.push(c),
{
    s.push(c);
}

/// The key path of one variable name, or nothing when the name does not
/// carry the overlay prefix.
fn key_path_x(name: &str) -> (r: Option<Vec<String>>)
    ensures
        (match r {
            Some(p) => has_prefix(name@) && p.deep_view() == key_path_of(name@),
            None => !has_prefix(name@),
        }),
{
    proof {
        reveal_strlit("APP_");
    }
    let n = name.unicode_len();
    if n <= 4 {
        proof {
            assert("APP_"@.len() == 4);
        }
        return None;
    }
    if name.get_char(0) != 'A' || name.get_char(1) != 'P' || name.get_char(2) != 'P'
        || name.get_char(3) != '_' {
        proof {
            assert(name@.take(4) != "APP_"@) by {
                if name@.take(4) == "APP_"@ {
                    assert(name@.take(4)[0] == 'A' && name@.take(4)[1] == 'P' && name@.take(4)[2]
                        == 'P' && name@.take(4)[3] == '_');
                }
            }
        }
        return None;
    }
    proof {
        assert(name@.take(4) =~= "APP_"@);
    }
    let ghost rest = name@.skip(4);
    let mut segs: Vec<String> = Vec::new();
    let mut cur = String::new();
    let mut j: usize = 4;
    proof {
        assert(rest.skip(0) =~= rest);
        assert(segs.deep_view() =~= Seq::<Seq<char>>::empty());
        lemma_lsplit_nonempty(rest);
        assert(segs.deep_view() + seq![cur@ + lsplit(rest)[0]] + lsplit(rest).drop_first()
            =~= seq![lsplit(rest)[0]] + lsplit(rest).drop_first());
        assert(seq![lsplit(rest)[0]] + lsplit(rest).drop_first() =~= lsplit(rest));
    }
    while j < n
        invariant
            4 <= j <= n,
            n == name@.len(),
            rest == name@.skip(4),
            rest.len() == n - 4,
            forall|l: int| 0 <= l < rest.len() ==> rest[l] == name@[l + 4],
            key_path_of(name@) == segs.deep_view() + seq![cur@ + lsplit(rest.skip(j - 4))[0]]
                + lsplit(rest.skip(j - 4)).drop_first(),
        decreases n - j,
    {
        let ghost rs = rest.skip(j - 4);
        proof {
            assert(rs[0] == name@[j as int]);
            if j + 1 < n {
                assert(rs[1] == name@[j + 1]);
            }
            lemma_lsplit_nonempty(rs);
        }
        let c = name.get_char(j);
        let two = j + 1 < n && c == '_' && name.get_char(j + 1) == '_';
        if two {
            proof {
                assert(rs.skip(2) =~= rest.skip(j - 4 + 2));
                lemma_lsplit_nonempty(rest.skip(j - 4 + 2));
                assert(lsplit(rs) == seq![Seq::<char>::empty()] + lsplit(rest.skip(j - 4 + 2)));
                assert((seq![Seq::<char>::empty()] + lsplit(rest.skip(j - 4 + 2)))[0]
                    =~= Seq::<char>::empty());
            }
            let ghost old_dv = segs.deep_view();
            let finished = cur;
            segs.push(finished);
            cur = String::new();
            proof {
                let ghost l2 = lsplit(rest.skip(j - 4 + 2));
                assert(segs.deep_view() =~= old_dv.push(finished@));
                assert((seq![Seq::<char>::empty()] + l2).drop_first() =~= l2);
                assert(old_dv + seq![finished@ + lsplit(rs)[0]] + lsplit(rs).drop_first()
                    =~= old_dv.push(finished@) + seq![cur@ + l2[0]] + l2.drop_first());
            }
            j += 2;
        } else {
            proof {
                let ghost l1 = lsplit(rest.skip(j - 4 + 1));
                assert(rs.drop_first() =~= rest.skip(j - 4 + 1));
                lemma_lsplit_nonempty(rest.skip(j - 4 + 1));
                assert(lsplit(rs) == seq![seq![lower_char(rs[0])] + l1[0]] + l1.drop_first());
            }
            let lc = crate::environment::lower_char_x(c);
            let ghost old_cur = cur@;
            push_char(&mut cur, lc);
            proof {
                let ghost l1 = lsplit(rest.skip(j - 4 + 1));
                assert(lsplit(rs)[0] == seq![lower_char(rs[0])] + l1[0]);
                assert(lsplit(rs).drop_first() =~= l1.drop_first());
                assert(old_cur + (seq![lower_char(rs[0])] + l1[0]) =~= cur@ + l1[0]);
                assert(segs.deep_view() + seq![old_cur + lsplit(rs)[0]] + lsplit(rs).drop_first()
                    =~= segs.deep_view() + seq![cur@ + l1[0]] + l1.drop_first());
            }
            j += 1;
        }
    }
    proof {
        assert(rest.skip(n - 4).len() == 0);
        assert(lsplit(rest.skip(n - 4)) == seq![Seq::<char>::empty()]);
        assert(cur@ + Seq::<char>::empty() =~= cur@);
        assert(lsplit(rest.skip(n - 4)).drop_first() =~= Seq::<Seq<char>>::empty());
    }
    segs.push(cur);
    proof {
        assert(segs.deep_view() =~= key_path_of(name@));
    }
    Some(segs)
}

/// A tree holding one value at the given path, as executable code.
fn singleton_x(segs: Vec<String>, val: Node) -> (r: Node)
    ensures
        r@ == singleton_v(segs.deep_view(), val@),
{
    let ghost dv = segs.deep_view();
    let mut acc = val;
    let mut k = segs.len();
    proof {
        assert(dv.skip(k as int).len() == 0);
    }
    let mut segs = segs;
    while k > 0
        invariant
            k <= segs.len(),
            dv == segs.deep_view(),
            dv.len() == segs@.len(),
            acc@ == singleton_v(dv.skip(k as int), val@),
        decreases k,
    {
        k = k - 1;
        let key = segs[k].clone();
        let mut entries: Vec<(String, Node)> = Vec::new();
        entries.push((key, acc));
        let next = Node::Table(entries);
        proof {
            crate::tree::lemma_tbl_view(next->Table_0@);
            assert(dv[k as int] == segs@[k as int]@);
            assert(dv.skip(k as int)[0] == dv[k as int]);
            assert(dv.skip(k as int).drop_first() =~= dv.skip(k + 1));
            assert(tbl_view(next->Table_0@) =~= seq![
                (dv[k as int], singleton_v(dv.skip(k + 1), val@)),
            ]);
            assert(next@ == singleton_v(dv.skip(k as int), val@));
        }
        acc = next;
    }
    proof {
        assert(dv.skip(0) =~= dv);
    }
    acc
}

/// The overlay tree of an environment snapshot, exactly as
/// [`overlay_v`] describes.
pub fn overlay_tree(entries: &Vec<(String, String)>) -> (r: Node)
    ensures
        r@ == overlay_v(pairs_view(entries@)),
{
    let ghost ev = pairs_view(entries@);
    let mut acc = Node::Table(Vec::new());
    let mut i: usize = 0;
    proof {
        assert(ev.take(0) =~= Seq::<(Seq<char>, Seq<char>)>::empty());
        assert(tbl_view(Seq::<(String, Node)>::empty()) =~= Seq::<(Seq<char>, ValV)>::empty());
        assert(acc@ == overlay_v(ev.take(0)));
    }
    while i < entries.len()
        invariant
            i <= entries.len(),
            ev == pairs_view(entries@),
            ev.len() == entries@.len(),
            forall|l: int|
                #![trigger entries@[l]]
                0 <= l < entries@.len() ==> ev[l] == (entries@[l].0@, entries@[l].1@),
            acc@ == overlay_v(ev.take(i as int)),
        decreases entries.len() - i,
    {
        proof {
            assert(ev.take(i + 1).drop_last() =~= ev.take(i as int));
            assert(ev.take(i + 1).last() == ev[i as int]);
        }
        match key_path_x(entries[i].0.as_str()) {
            None => {},
            Some(segs) => {
                let leaf = Node::Str(entries[i].1.clone());
                let single = singleton_x(segs, leaf);
                let merged = merge(&acc, &single);
                acc = merged;
            },
        }
        i += 1;
    }
    proof {
        assert(ev.take(entries@.len() as int) =~= ev);
    }
    acc
}

/// A one-path tree holds its value at that path.
proof fn lemma_singleton_lookup(p: Seq<Seq<char>>, val: ValV)
    ensures
        lookup_path(singleton_v(p, val), p) == Some(val),
    decreases p.len(),
{
    if p.len() > 0 {
        let sub = singleton_v(p.drop_first(), val);
        assert(get_v(singleton_v(p, val), p[0]) == Some(sub));
        lemma_singleton_lookup(p.drop_first(), val);
    }
}

/// Overlay wins: merging a variable's one-path tree onto any tree puts
/// the variable's string at its key path, whatever the files held.
pub proof fn lemma_overlay_entry_wins(t: ValV, p: Seq<Seq<char>>, s: Seq<char>)
    ensures
        lookup_path(merge_s(t, singleton_v(p, ValV::Str(s))), p) == Some(ValV::Str(s)),
{
    lemma_singleton_lookup(p, ValV::Str(s));
    lemma_merge_overrides(t, singleton_v(p, ValV::Str(s)), p);
}

/// Among overlay variables, the later entry wins: after appending a
/// prefixed variable, its key path holds its value.
pub proof fn lemma_last_overlay_entry_wins(
    entries: Seq<(Seq<char>, Seq<char>)>,
    name: Seq<char>,
    val: Seq<char>,
)
    requires
        has_prefix(name),
    ensures
        lookup_path(overlay_v(entries.push((name, val))), key_path_of(name)) == Some(
            ValV::Str(val),
        ),
{
    let all = entries.push((name, val));
    assert(all.drop_last() =~= entries);
    assert(all.last() == (name, val));
    lemma_overlay_entry_wins(overlay_v(entries), key_path_of(name), val);
}

} // verus!
