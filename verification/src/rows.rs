//! Rows of things: what the contracts of this library say of sequences of
//! byte strings and of texts.

use vstd::prelude::*;

verus! {

/// The byte strings held by `items`.
pub open spec fn bytes_of(items: Seq<Vec<u8>>) -> Seq<Seq<u8>> {
    items.map_values(|item: Vec<u8>| item@)
}

/// The character strings held by `items`.
pub open spec fn texts_of(items: Seq<String>) -> Seq<Seq<char>> {
    items.map_values(|item: String| item@)
}

/// The byte strings in a row.
pub open spec fn concat(pieces: Seq<Seq<u8>>) -> Seq<u8>
    decreases pieces.len(),
{
    if pieces.len() == 0 {
        Seq::empty()
    } else {
        concat(pieces.drop_last()) + pieces.last()
    }
}

/// A row of byte strings with one more behind it is the row and then that
/// one.
pub proof fn lemma_concat_push(pieces: Seq<Seq<u8>>, piece: Seq<u8>)
    ensures
        concat(pieces.push(piece)) == concat(pieces) + piece,
{
    assert(pieces.push(piece).drop_last() == pieces);
}

/// A byte string and then a row of byte strings are, in a row, the byte
/// string and then the row.
pub proof fn lemma_concat_prepend(piece: Seq<u8>, rest: Seq<Seq<u8>>)
    ensures
        concat(seq![piece] + rest) == piece + concat(rest),
    decreases rest.len(),
{
    let all = seq![piece] + rest;
    if rest.len() == 0 {
        assert(all.drop_last() =~= Seq::<Seq<u8>>::empty());
        assert(all.last() == piece);
        assert(concat(all.drop_last()) =~= Seq::<u8>::empty());
        assert(concat(rest) =~= Seq::<u8>::empty());
        assert(concat(all) =~= piece + concat(rest));
    } else {
        assert(all.drop_last() =~= seq![piece] + rest.drop_last());
        assert(all.last() == rest.last());
        lemma_concat_prepend(piece, rest.drop_last());
        assert(concat(all) =~= piece + concat(rest));
    }
}

/// Byte strings in a row hold at least as many bytes as any one of them.
pub proof fn lemma_concat_holds(pieces: Seq<Seq<u8>>, k: int)
    requires
        0 <= k < pieces.len(),
    ensures
        concat(pieces).len() >= pieces[k].len(),
    decreases pieces.len(),
{
    if k < pieces.len() - 1 {
        lemma_concat_holds(pieces.drop_last(), k);
        assert(pieces.drop_last()[k] == pieces[k]);
    }
}

/// The items of `s`, each one once, in the order in which they first occur.
pub open spec fn each_once<A>(s: Seq<A>) -> Seq<A>
    decreases s.len(),
{
    if s.len() == 0 {
        Seq::empty()
    } else if each_once(s.drop_last()).contains(s.last()) {
        each_once(s.drop_last())
    } else {
        each_once(s.drop_last()).push(s.last())
    }
}

/// `each_once` keeps every item, holds none twice, and adds none.
pub proof fn lemma_each_once<A>(s: Seq<A>)
    ensures
        each_once(s).no_duplicates(),
        forall|a: A| each_once(s).contains(a) <==> s.contains(a),
    decreases s.len(),
{
    if s.len() > 0 {
        let front = s.drop_last();
        let last = s.last();
        lemma_each_once(front);
        let kept = each_once(front);
        let now = each_once(s);
        assert forall|a: A| s.contains(a) <==> (front.contains(a) || a == last) by {
            if s.contains(a) {
                let i = choose|i: int| 0 <= i < s.len() && s[i] == a;
                if i < s.len() - 1 {
                    assert(front[i] == a);
                }
            }
            if front.contains(a) {
                let i = choose|i: int| 0 <= i < front.len() && front[i] == a;
                assert(s[i] == a);
            }
            if a == last {
                assert(s[s.len() - 1] == a);
            }
        }
        if !kept.contains(last) {
            assert(now == kept.push(last));
            assert forall|a: A| now.contains(a) <==> (kept.contains(a) || a == last) by {
                if now.contains(a) {
                    let k = choose|k: int| 0 <= k < now.len() && now[k] == a;
                    if k < kept.len() {
                        assert(kept[k] == a);
                    }
                }
                if kept.contains(a) {
                    let k = choose|k: int| 0 <= k < kept.len() && kept[k] == a;
                    assert(now[k] == a);
                }
                if a == last {
                    assert(now[kept.len() as int] == a);
                }
            }
            assert forall|i: int, j: int| 0 <= i < now.len() && 0 <= j < now.len() && i
                != j implies now[i] != now[j] by {
                if i < kept.len() && j < kept.len() {
                } else if i < kept.len() {
                    assert(kept.contains(kept[i]));
                } else {
                    assert(kept.contains(kept[j]));
                }
            }
        }
    }
}

/// A row that holds nothing twice is left as it is.
pub proof fn lemma_each_once_keeps_distinct<A>(s: Seq<A>)
    requires
        s.no_duplicates(),
    ensures
        each_once(s) == s,
    decreases s.len(),
{
    if s.len() > 0 {
        let front = s.drop_last();
        lemma_each_once_keeps_distinct(front);
        if front.contains(s.last()) {
            let i = choose|i: int| 0 <= i < front.len() && front[i] == s.last();
            assert(s[i] == s[s.len() - 1]);
        }
        assert(front.push(s.last()) == s);
    }
}

} // verus!
