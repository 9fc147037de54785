use vstd::prelude::*;

verus! {

/// Signal of the first entry with identifier `id`, if any.
pub open spec fn find_signal(signals: Seq<(u32, u64)>, id: u32) -> Option<u64>
    decreases signals.len(),
{
    if signals.len() == 0 {
        None
    } else if signals[0].0 == id {
        Some(signals[0].1)
    } else {
        find_signal(signals.drop_first(), id)
    }
}

/// Looks up the signal of one spot.
pub fn signal_of(signals: &Vec<(u32, u64)>, id: u32) -> (r: Option<u64>)
    ensures
        r == find_signal(signals@, id),
{
    let mut i: usize = 0;
    proof {
        assert(signals@.subrange(0, signals@.len() as int) =~= signals@);
    }
    while i < signals.len()
        invariant
            i <= signals@.len(),
            find_signal(signals@, id) == find_signal(
                signals@.subrange(i as int, signals@.len() as int),
                id,
            ),
        decreases signals.len() - i,
    {
        let ghost rest = signals@.subrange(i as int, signals@.len() as int);
        proof {
            assert(rest.drop_first() =~= signals@.subrange(i as int + 1, signals@.len() as int));
        }
        if signals[i].0 == id {
            return Some(signals[i].1);
        }
        i = i + 1;
    }
    proof {
        assert(signals@.subrange(i as int, signals@.len() as int) =~= Seq::<(u32, u64)>::empty());
    }
    None
}

/// Signals of the reference spots, in the order of `reference_ids`; `None` when one of them
/// has no signal.
pub fn reference_signals(signals: &Vec<(u32, u64)>, reference_ids: &Vec<u32>) -> (r: Option<
    Vec<u64>,
>)
    ensures
        r is Some <==> forall|i: int|
            0 <= i < reference_ids@.len() ==> #[trigger] find_signal(
                signals@,
                reference_ids@[i],
            ) is Some,
        r matches Some(v) ==> v@.len() == reference_ids@.len() && forall|i: int|
            0 <= i < v@.len() ==> find_signal(signals@, reference_ids@[i]) == Some(
                #[trigger] v@[i],
            ),
{
    let mut out: Vec<u64> = Vec::new();
    let mut i: usize = 0;
    while i < reference_ids.len()
        invariant
            i <= reference_ids@.len(),
            out@.len() == i,
            forall|k: int|
                0 <= k < i ==> find_signal(signals@, reference_ids@[k]) == Some(
                    #[trigger] out@[k],
                ),
        decreases reference_ids.len() - i,
    {
        match signal_of(signals, reference_ids[i]) {
            Some(v) => {
                out.push(v);
            },
            None => {
                return None;
            },
        }
        i = i + 1;
    }
    proof {
        assert forall|k: int| 0 <= k < reference_ids@.len() implies #[trigger] find_signal(
            signals@,
            reference_ids@[k],
        ) is Some by {
            assert(find_signal(signals@, reference_ids@[k]) == Some(out@[k]));
        }
    }
    Some(out)
}

} // verus!
