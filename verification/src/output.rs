use vstd::prelude::*;

verus! {

/// One response from the worker, tagged with the generation of the
/// request that produced it.
#[derive(Debug, Clone)]
pub struct Output<T> {
    /// Generation number of the request.
    pub generation: u64,
    /// The worker's response.
    pub value: T,
}

/// `i` is the position of the newest output in `s`: its generation is the
/// highest, and every output before it has a strictly lower one (so among
/// equal generations the earliest wins).
pub open spec fn is_newest_at<T>(s: Seq<Output<T>>, i: int) -> bool {
    &&& 0 <= i < s.len()
    &&& forall|j: int| 0 <= j < s.len() ==> #[trigger] s[j].generation <= s[i].generation
    &&& forall|j: int| 0 <= j < i ==> #[trigger] s[j].generation < s[i].generation
}

/// At most one position of `s` holds the newest output, so what `newest`
/// returns is determined by its input.
pub proof fn lemma_newest_unique<T>(s: Seq<Output<T>>, i: int, k: int)
    requires
        is_newest_at(s, i),
        is_newest_at(s, k),
    ensures
        i == k,
{
    if i < k {
        assert(s[i].generation < s[k].generation);
    } else if k < i {
        assert(s[k].generation < s[i].generation);
    }
}

/// The newest output of `s` (see `is_newest_at`), or `None` when `s` is
/// empty.
pub open spec fn newest_of<T>(s: Seq<Output<T>>) -> Option<Output<T>> {
    if exists|i: int| is_newest_at(s, i) {
        Some(s[choose|i: int| is_newest_at(s, i)])
    } else {
        None
    }
}

/// What `newest_of` is: `None` exactly for an empty sequence; otherwise an
/// element of it whose generation is the highest, every element before it
/// having a strictly lower generation.
pub proof fn lemma_newest_of<T>(s: Seq<Output<T>>)
    ensures
        newest_of(s) is None <==> s.len() == 0,
        s.len() > 0 ==> exists|i: int| is_newest_at(s, i) && newest_of(s) == Some(s[i]),
        forall|j: int|
            0 <= j < s.len() ==> #[trigger] s[j].generation <= newest_of(s)->0.generation,
{
    if s.len() > 0 {
        lemma_has_newest(s);
        let i = choose|i: int| is_newest_at(s, i);
        assert(newest_of(s) == Some(s[i]));
    }
}

proof fn lemma_has_newest<T>(s: Seq<Output<T>>)
    requires
        s.len() > 0,
    ensures
        exists|i: int| is_newest_at(s, i),
    decreases s.len(),
{
    if s.len() == 1 {
        assert(is_newest_at(s, 0));
    } else {
        let pre = s.drop_last();
        lemma_has_newest(pre);
        let i0 = choose|i: int| is_newest_at(pre, i);
        let n = s.len() - 1;
        assert(forall|j: int| 0 <= j < n ==> pre[j] == s[j]);
        if s[n].generation > s[i0].generation {
            assert(is_newest_at(s, n));
        } else {
            assert(is_newest_at(s, i0));
        }
    }
}

/// Picks the newest of `outputs`: the one with the highest generation, the
/// earliest of them on a tie. `None` when there is none.
pub fn newest<T>(outputs: Vec<Output<T>>) -> (r: Option<Output<T>>)
    ensures
        r is None <==> outputs@.len() == 0,
        r is Some ==> exists|i: int| is_newest_at(outputs@, i) && r == Some(outputs@[i]),
        r == newest_of(outputs@),
{
    if outputs.len() == 0 {
        return None;
    }
    let mut best: usize = 0;
    let mut k: usize = 1;
    while k < outputs.len()
        invariant
            0 < k <= outputs.len(),
            best < k,
            forall|j: int| 0 <= j < k ==> #[trigger] outputs@[j].generation <= outputs@[best as int].generation,
            forall|j: int| 0 <= j < best ==> #[trigger] outputs@[j].generation < outputs@[best as int].generation,
        decreases outputs.len() - k,
    {
        if outputs[k].generation > outputs[best].generation {
            best = k;
        }
        k = k + 1;
    }
    let mut outputs = outputs;
    let ghost s = outputs@;
    let r = outputs.swap_remove(best);
    assert(is_newest_at(s, best as int));
    proof {
        let i = choose|i: int| is_newest_at(s, i);
        lemma_newest_unique(s, i, best as int);
    }
    Some(r)
}

} // verus!
