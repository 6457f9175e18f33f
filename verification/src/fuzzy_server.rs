//! How the server shares its fuzz bytes among the channels it listens
//! on.

use vstd::prelude::*;

verus! {

/// The bytes of `bytes` that fall to channel `c` of `channels`: those at
/// the positions `c`, `c + channels`, `c + 2 * channels` and so on, in
/// that order.
pub open spec fn lane(bytes: Seq<u8>, channels: nat, c: nat) -> Seq<u8>
    decreases bytes.len(),
{
    if bytes.len() == 0 {
        Seq::empty()
    } else if (bytes.len() - 1) % (channels as int) == c {
        lane(bytes.drop_last(), channels, c).push(bytes.last())
    } else {
        lane(bytes.drop_last(), channels, c)
    }
}

/// The server's dealings with its fuzz bytes.
pub struct FuzzyServerInner {}

impl FuzzyServerInner {
    /// Deals the bytes out to `channels` channels in turn.
    pub fn splice(channels: usize, vec: Vec<u8>) -> (out: Vec<Vec<u8>>)
        requires
            channels > 0,
        ensures
            out@.len() == channels,
            forall|c: int|
                0 <= c < channels ==> (#[trigger] out@[c])@ == lane(
                    vec@,
                    channels as nat,
                    c as nat,
                ),
    {
        let mut out: Vec<Vec<u8>> = Vec::new();
        let mut c: usize = 0;
        while c < channels
            invariant
                c <= channels,
                out@.len() == c,
                forall|k: int| 0 <= k < c ==> (#[trigger] out@[k])@ == Seq::<u8>::empty(),
            decreases channels - c,
        {
            out.push(Vec::new());
            c += 1;
        }
        let mut i: usize = 0;
        while i < vec.len()
            invariant
                channels > 0,
                i <= vec.len(),
                out@.len() == channels,
                forall|k: int|
                    0 <= k < channels ==> (#[trigger] out@[k])@ == lane(
                        vec@.take(i as int),
                        channels as nat,
                        k as nat,
                    ),
            decreases vec.len() - i,
        {
            let turn = i % channels;
            let ghost before = out@;
            out[turn].push(vec[i]);
            proof {
                let longer = vec@.take(i + 1);
                assert(longer.drop_last() =~= vec@.take(i as int));
                assert(longer.last() == vec@[i as int]);
                assert forall|k: int| 0 <= k < channels implies (#[trigger] out@[k])@ == lane(
                    longer,
                    channels as nat,
                    k as nat,
                ) by {
                    if k != turn {
                        assert(out@[k] == before[k]);
                    }
                }
            }
            i += 1;
        }
        proof {
            assert(vec@.take(i as int) =~= vec@);
        }
        out
    }
}

} // verus!
