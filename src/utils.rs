//! Collection helpers with closures.
use vstd::prelude::*;

verus! {

broadcast use vstd::seq::group_seq_axioms;

/// The members of `s` whose flag in `keep` is set, in order.
pub open spec fn select<T>(s: Seq<T>, keep: Seq<bool>) -> Seq<T>
    decreases s.len(),
{
    if s.len() == 0 {
        s
    } else if keep[s.len() - 1] {
        select(s.drop_last(), keep).push(s.last())
    } else {
        select(s.drop_last(), keep)
    }
}

/// The flags of `keep` negated.
pub open spec fn negate(keep: Seq<bool>) -> Seq<bool> {
    Seq::new(keep.len(), |i: int| !keep[i])
}

/// The values inside the `Some`s of `s`, in order.
pub open spec fn somes<U>(s: Seq<Option<U>>) -> Seq<U>
    decreases s.len(),
{
    if s.len() == 0 {
        Seq::empty()
    } else {
        match s.last() {
            Some(u) => somes(s.drop_last()).push(u),
            None => somes(s.drop_last()),
        }
    }
}

/// Removes from `v` the members on which `f` answers `true` and returns them; both parts
/// keep their order.
#[verifier::loop_isolation(false)]
pub fn drain_filter<T, F: Fn(&T) -> bool>(v: &mut Vec<T>, f: F) -> (r: Vec<T>)
    requires
        forall|x: &T| #[trigger] f.requires((x,)),
    ensures
        exists|picked: Seq<bool>|
            #![trigger select(old(v)@, picked)]
            picked.len() == old(v)@.len() && (forall|i: int|
                0 <= i < old(v)@.len() ==> f.ensures((&old(v)@[i],), #[trigger] picked[i])) && r@ == select(
                old(v)@,
                picked,
            ) && final(v)@ == select(old(v)@, negate(picked)),
{
    let mut src: Vec<T> = Vec::new();
    std::mem::swap(v, &mut src);
    let ghost orig = src@;
    let mut out: Vec<T> = Vec::new();
    let ghost mut picked: Seq<bool> = Seq::empty();
    let ghost mut k: int = 0;
    proof {
        assert(orig.skip(0) =~= orig);
        assert(orig.take(0) =~= Seq::<T>::empty());
    }
    while src.len() > 0
        invariant
            0 <= k <= orig.len(),
            picked.len() == k,
            src@ == orig.skip(k),
            forall|i: int| 0 <= i < k ==> f.ensures((&orig[i],), #[trigger] picked[i]),
            out@ == select(orig.take(k), picked),
            v@ == select(orig.take(k), negate(picked)),
        decreases src.len(),
    {
        let x = src.remove(0);
        proof {
            assert(orig.skip(k).remove(0) =~= orig.skip(k + 1));
            assert(orig.skip(k)[0] == orig[k]);
            assert(orig.take(k + 1).drop_last() =~= orig.take(k));
        }
        let b = f(&x);
        proof {
            let p2 = picked.push(b);
            lemma_select_extend(orig.take(k), picked, b);
            lemma_select_extend(orig.take(k), negate(picked), !b);
            assert(negate(picked).push(!b) =~= negate(p2));
        }
        if b {
            out.push(x);
        } else {
            v.push(x);
        }
        proof {
            picked = picked.push(b);
            k = k + 1;
        }
    }
    proof {
        assert(orig.take(k) =~= orig);
    }
    out
}

/// Flags past the end of a sequence do not change what is selected.
proof fn lemma_select_extend<T>(s: Seq<T>, keep: Seq<bool>, b: bool)
    requires
        keep.len() == s.len(),
    ensures
        select(s, keep.push(b)) == select(s, keep),
    decreases s.len(),
{
    if s.len() > 0 {
        lemma_select_extend(s.drop_last(), keep.drop_last(), b);
        lemma_select_prefix(s.drop_last(), keep, keep.drop_last());
        lemma_select_prefix(s.drop_last(), keep.push(b), keep.drop_last());
    }
}

/// Only the flags of the places of `s` matter.
proof fn lemma_select_prefix<T>(s: Seq<T>, a: Seq<bool>, b: Seq<bool>)
    requires
        s.len() <= a.len(),
        s.len() <= b.len(),
        forall|i: int| 0 <= i < s.len() ==> a[i] == b[i],
    ensures
        select(s, a) == select(s, b),
    decreases s.len(),
{
    if s.len() > 0 {
        lemma_select_prefix(s.drop_last(), a, b);
    }
}

/// `f` applied to each member of `v`, in order.
#[verifier::loop_isolation(false)]
pub fn map_collect_vec<T, U, F: Fn(T) -> U>(v: Vec<T>, f: F) -> (r: Vec<U>)
    requires
        forall|x: T| #[trigger] f.requires((x,)),
    ensures
        r@.len() == v@.len(),
        forall|i: int| 0 <= i < v@.len() ==> f.ensures((v@[i],), #[trigger] r@[i]),
{
    let mut src = v;
    let ghost orig = src@;
    let mut out: Vec<U> = Vec::new();
    let ghost mut k: int = 0;
    proof {
        assert(orig.skip(0) =~= orig);
    }
    while src.len() > 0
        invariant
            0 <= k <= orig.len(),
            src@ == orig.skip(k),
            out@.len() == k,
            forall|i: int| 0 <= i < k ==> f.ensures((orig[i],), #[trigger] out@[i]),
        decreases src.len(),
    {
        let x = src.remove(0);
        proof {
            assert(orig.skip(k).remove(0) =~= orig.skip(k + 1));
            assert(orig.skip(k)[0] == orig[k]);
        }
        let y = f(x);
        out.push(y);
        proof {
            k = k + 1;
        }
    }
    out
}

/// The values that `f` gives on the members of `v`, leaving out `None`, in order.
#[verifier::loop_isolation(false)]
pub fn filter_map_collect_vec<T, U, F: Fn(T) -> Option<U>>(v: Vec<T>, f: F) -> (r: Vec<U>)
    requires
        forall|x: T| #[trigger] f.requires((x,)),
    ensures
        exists|outs: Seq<Option<U>>|
            #![trigger somes(outs)]
            outs.len() == v@.len() && (forall|i: int| 0 <= i < v@.len() ==> f.ensures((v@[i],), #[trigger] outs[i]))
                && r@ == somes(outs),
{
    let mut src = v;
    let ghost orig = src@;
    let mut out: Vec<U> = Vec::new();
    let ghost mut outs: Seq<Option<U>> = Seq::empty();
    let ghost mut k: int = 0;
    proof {
        assert(orig.skip(0) =~= orig);
    }
    while src.len() > 0
        invariant
            0 <= k <= orig.len(),
            src@ == orig.skip(k),
            outs.len() == k,
            forall|i: int| 0 <= i < k ==> f.ensures((orig[i],), #[trigger] outs[i]),
            out@ == somes(outs),
        decreases src.len(),
    {
        let x = src.remove(0);
        proof {
            assert(orig.skip(k).remove(0) =~= orig.skip(k + 1));
            assert(orig.skip(k)[0] == orig[k]);
        }
        let y = f(x);
        proof {
            assert(outs.push(y).drop_last() =~= outs);
        }
        match y {
            Some(u) => out.push(u),
            None => {},
        }
        proof {
            outs = outs.push(y);
            k = k + 1;
        }
    }
    out
}

} // verus!

verus! {

/// Inserting a whole vector at a place.
pub trait VecExt<T>: Sized + View<V = Seq<T>> {
    fn insert_vec(&mut self, index: usize, other: Vec<T>)
        requires
            index <= old(self)@.len(),
        ensures
            final(self)@ == old(self)@.take(index as int) + other@ + old(self)@.skip(index as int),
    ;
}

impl<T> VecExt<T> for Vec<T> {
    #[verifier::loop_isolation(false)]
    fn insert_vec(&mut self, index: usize, other: Vec<T>) {
        let ghost front = self@.take(index as int);
        let ghost back = self@.skip(index as int);
        let ghost ins = other@;
        let mut src = other;
        let mut at = index;
        let ghost mut k: int = 0;
        proof {
            assert(ins.skip(0) =~= ins);
            assert(front + ins.take(0) + back =~= self@);
        }
        while src.len() > 0
            invariant
                0 <= k <= ins.len(),
                at == index + k,
                src@ == ins.skip(k),
                self@ == front + ins.take(k) + back,
                front.len() == index,
            decreases src.len(),
        {
            let x = src.remove(0);
            proof {
                assert(ins.skip(k).remove(0) =~= ins.skip(k + 1));
                assert(ins.skip(k)[0] == ins[k]);
            }
            self.insert(at, x);
            proof {
                assert(front + ins.take(k + 1) + back =~= (front + ins.take(k) + back).insert(at as int, x));
                k = k + 1;
                assert(self@.len() == self.len());
            }
            at += 1;
        }
        proof {
            assert(ins.take(k) =~= ins);
        }
    }
}

} // verus!
