//! Helpers that stand on their own: a cursor over bytes, a string hash, and the
//! divisors that screen resolutions have in common.

use vstd::prelude::*;
use vstd::slice::slice_subrange;
use vstd::string::StringExecFns;
use vstd::string::StringSliceAdditionalSpecFns;
use crate::text::decimal_digits;
use crate::text::decimal_string_unsigned;

verus! {

/// A cursor over a buffer of bytes that moves forward only.
pub struct Deserializer<'a> {
    data: &'a [u8],
}

/// What `skip_bytes` says when fewer bytes are left than it is asked to skip.
pub open spec fn spec_skip_error(byte_count: nat, remaining: nat) -> Seq<char> {
    "Cannot not skip "@ + decimal_digits(byte_count) + " bytes, internal buffer has only "@
        + decimal_digits(remaining) + " bytes left"@
}

impl<'a> Deserializer<'a> {
    /// The bytes that have not been passed yet.
    pub closed spec fn remaining(&self) -> Seq<u8> {
        self.data@
    }

    /// A cursor at the start of `data`.
    pub fn new(data: &'a [u8]) -> (deserializer: Deserializer<'a>)
        ensures
            deserializer.remaining() == data@,
    {
        Deserializer { data }
    }

    /// The bytes that have not been passed yet.
    pub fn get_remaining_data(&self) -> (data: &'a [u8])
        ensures
            data@ == self.remaining(),
    {
        self.data
    }

    /// Passes over `byte_count` bytes, or fails, and stays where it is, when fewer are left.
    pub fn skip_bytes(&mut self, byte_count: usize) -> (result: Result<(), String>)
        ensures
            match result {
                Ok(_) => byte_count <= old(self).remaining().len() && final(self).remaining()
                    == old(self).remaining().skip(byte_count as int),
                Err(message) => {
                    &&& byte_count > old(self).remaining().len()
                    &&& final(self).remaining() == old(self).remaining()
                    &&& message@ == spec_skip_error(
                        byte_count as nat,
                        old(self).remaining().len(),
                    )
                },
            },
    {
        if byte_count > self.data.len() {
            let wanted = decimal_string_unsigned(byte_count as u64);
            let left = decimal_string_unsigned(self.data.len() as u64);
            let message = String::from_str("Cannot not skip ").concat(wanted.as_str()).concat(
                " bytes, internal buffer has only ",
            ).concat(left.as_str()).concat(" bytes left");
            return Err(message);
        }
        let rest = slice_subrange(self.data, byte_count, self.data.len());
        self.data = rest;
        Ok(())
    }
}

/// The FNV-1a hash of a sequence of bytes: starting from the offset basis, each byte
/// is xor-ed in and the result multiplied by the FNV prime, modulo two to the 64th.
pub open spec fn fnv1a_64(bytes: Seq<u8>) -> u64
    decreases bytes.len(),
{
    if bytes.len() == 0 {
        14695981039346656037u64
    } else {
        (((fnv1a_64(bytes.drop_last()) ^ (bytes.last() as u64)) as int * 1099511628211)
            % 0x1_0000_0000_0000_0000) as u64
    }
}

/// Hashes the bytes of a string with the 64-bit FNV-1a function.
pub fn hash_string_64(input: &str) -> (hash: u64)
    ensures
        hash == fnv1a_64(input.spec_bytes()),
{
    let bytes = input.as_bytes();
    let mut hash: u64 = 14695981039346656037;
    let mut i: usize = 0;
    while i < bytes.len()
        invariant
            i <= bytes.len(),
            hash == fnv1a_64(bytes@.take(i as int)),
        decreases bytes.len() - i,
    {
        proof {
            assert(bytes@.take(i + 1).drop_last() =~= bytes@.take(i as int));
        }
        hash = (hash ^ (bytes[i] as u64)).wrapping_mul(1099511628211);
        i += 1;
    }
    proof {
        assert(bytes@.take(bytes@.len() as int) =~= bytes@);
    }
    hash
}

/// Whether `divisor` is one of the divisors of `value` that are listed: those from
/// one up to, but not including, half of `value`.
pub open spec fn is_listed_divisor(value: u32, divisor: u32) -> bool {
    1 <= divisor < value / 2 && value % divisor == 0
}

/// The listed divisors of `value` that are below `bound`, in ascending order.
pub open spec fn divisors_below(value: u32, bound: int) -> Seq<u32>
    decreases bound,
{
    if bound <= 1 {
        Seq::empty()
    } else if is_listed_divisor(value, (bound - 1) as u32) {
        divisors_below(value, bound - 1).push((bound - 1) as u32)
    } else {
        divisors_below(value, bound - 1)
    }
}

/// The divisors of a number from one up to, but not including, half of the number,
/// in ascending order.
pub fn get_all_divisors(value: u32) -> (divisors: Vec<u32>)
    ensures
        divisors@ == divisors_below(value, (value / 2) as int),
{
    let mut divisors: Vec<u32> = Vec::new();
    let limit: u32 = value / 2;
    let mut x: u32 = 1;
    while x < limit
        invariant
            1 <= x,
            x <= limit || x == 1,
            limit == value / 2,
            divisors@ == divisors_below(value, x as int),
        decreases limit - x,
    {
        if value % x == 0 {
            divisors.push(x);
        }
        x += 1;
    }
    proof {
        if limit < 1 {
            assert(divisors_below(value, 1) =~= Seq::<u32>::empty());
            assert(divisors_below(value, limit as int) =~= Seq::<u32>::empty());
        }
    }
    divisors
}

/// Whether `divisor` is a listed divisor of every one of `values`.
pub open spec fn is_common_divisor(values: Seq<u32>, divisor: u32) -> bool {
    forall|i: int| 0 <= i < values.len() ==> is_listed_divisor(#[trigger] values[i], divisor)
}

/// The common divisors of `values` that are below `bound`, in ascending order.
pub open spec fn common_divisors_below(values: Seq<u32>, bound: int) -> Seq<u32>
    decreases bound,
{
    if bound <= 1 {
        Seq::empty()
    } else if is_common_divisor(values, (bound - 1) as u32) {
        common_divisors_below(values, bound - 1).push((bound - 1) as u32)
    } else {
        common_divisors_below(values, bound - 1)
    }
}

/// Whether `divisor` is a listed divisor of every one of `values`.
fn divides_all(values: &[u32], divisor: u32) -> (common: bool)
    requires
        1 <= divisor,
    ensures
        common == is_common_divisor(values@, divisor),
{
    let mut i: usize = 0;
    while i < values.len()
        invariant
            i <= values.len(),
            1 <= divisor,
            forall|k: int| 0 <= k < i ==> is_listed_divisor(#[trigger] values@[k], divisor),
        decreases values.len() - i,
    {
        if !(divisor < values[i] / 2 && values[i] % divisor == 0) {
            return false;
        }
        i += 1;
    }
    true
}

/// The divisors that all of `values` have in common, each from one up to, but not
/// including, half of every value; in ascending order.
pub fn common_divisors(values: &[u32]) -> (divisors: Vec<u32>)
    requires
        values@.len() > 0,
    ensures
        divisors@ == common_divisors_below(values@, (values@[0] / 2) as int),
        forall|i: int| 0 <= i < divisors@.len() ==> is_common_divisor(values@, #[trigger] divisors@[i]),
        forall|divisor: u32|
            is_common_divisor(values@, divisor) ==> divisors@.contains(divisor),
        forall|i: int, j: int| 0 <= i < j < divisors@.len() ==> divisors@[i] < divisors@[j],
{
    let mut divisors: Vec<u32> = Vec::new();
    let limit: u32 = values[0] / 2;
    let mut x: u32 = 1;
    while x < limit
        invariant
            1 <= x,
            x <= limit || x == 1,
            values@.len() > 0,
            limit == values@[0] / 2,
            divisors@ == common_divisors_below(values@, x as int),
            forall|i: int|
                0 <= i < divisors@.len() ==> is_common_divisor(values@, #[trigger] divisors@[i])
                    && divisors@[i] < x,
            forall|divisor: u32|
                is_common_divisor(values@, divisor) && divisor < x ==> divisors@.contains(divisor),
            forall|i: int, j: int| 0 <= i < j < divisors@.len() ==> divisors@[i] < divisors@[j],
        decreases limit - x,
    {
        let ghost before = divisors@;
        if divides_all(values, x) {
            divisors.push(x);
            proof {
                assert forall|divisor: u32|
                    is_common_divisor(values@, divisor) && divisor < x + 1 implies divisors@.contains(
                    divisor,
                ) by {
                    if divisor < x {
                        let k = choose|k: int| 0 <= k < before.len() && before[k] == divisor;
                        assert(divisors@[k] == divisor);
                    } else {
                        assert(divisors@[before.len() as int] == divisor);
                    }
                }
            }
        }
        x += 1;
    }
    proof {
        if limit < 1 {
            assert(common_divisors_below(values@, 1) =~= Seq::<u32>::empty());
            assert(common_divisors_below(values@, limit as int) =~= Seq::<u32>::empty());
        }
        assert forall|divisor: u32| is_common_divisor(values@, divisor) implies divisors@.contains(
            divisor,
        ) by {
            assert(is_listed_divisor(values@[0], divisor));
        }
    }
    divisors
}

/// The resolutions that a resolution can be scaled down to: width and height divided
/// by each of their common divisors, in ascending order of the divisor.
pub open spec fn resolution_divisors(resolution: (u32, u32)) -> Seq<(u32, u32)> {
    let divisors = resolution_common_divisors(resolution);
    Seq::new(divisors.len(), |i: int| scaled_down(resolution, divisors[i]))
}

/// A resolution with its width and its height divided by `divisor`.
pub open spec fn scaled_down(resolution: (u32, u32), divisor: u32) -> (u32, u32) {
    (resolution.0 / divisor, resolution.1 / divisor)
}

/// The divisors that the width and the height of a resolution have in common.
pub open spec fn resolution_common_divisors(resolution: (u32, u32)) -> Seq<u32> {
    common_divisors_below(seq![resolution.0, resolution.1], (resolution.0 / 2) as int)
}

/// The resolutions that a resolution can be scaled down to.
pub fn get_all_resolution_divisors(resolution: (u32, u32)) -> (resolutions: Vec<(u32, u32)>)
    ensures
        resolutions@ == resolution_divisors(resolution),
{
    let mut values: Vec<u32> = Vec::new();
    values.push(resolution.0);
    values.push(resolution.1);
    proof {
        assert(values@ =~= seq![resolution.0, resolution.1]);
    }
    let divisors = common_divisors(values.as_slice());
    let mut resolutions: Vec<(u32, u32)> = Vec::new();
    let mut i: usize = 0;
    proof {
        assert forall|k: int| 0 <= k < divisors@.len() implies 1 <= #[trigger] divisors@[k] by {
            assert(is_common_divisor(values@, divisors@[k]));
            assert(is_listed_divisor(values@[0], divisors@[k]));
        }
    }
    while i < divisors.len()
        invariant
            i <= divisors.len(),
            forall|k: int| 0 <= k < divisors@.len() ==> 1 <= #[trigger] divisors@[k],
            resolutions@ == resolution_divisors(resolution).take(i as int),
            divisors@ == resolution_common_divisors(resolution),
        decreases divisors.len() - i,
    {
        let divisor = divisors[i];
        resolutions.push((resolution.0 / divisor, resolution.1 / divisor));
        i += 1;
        assert(resolutions@ =~= resolution_divisors(resolution).take(i as int));
    }
    assert(resolutions@ =~= resolution_divisors(resolution));
    resolutions
}

/// The order of resolutions: by width, then by height.
pub open spec fn resolution_less(a: (u32, u32), b: (u32, u32)) -> bool {
    a.0 < b.0 || (a.0 == b.0 && a.1 < b.1)
}

/// Whether every one of `resolutions` can be scaled down to `candidate`.
pub open spec fn is_common_resolution(resolutions: Seq<(u32, u32)>, candidate: (u32, u32)) -> bool {
    forall|i: int|
        0 <= i < resolutions.len() ==> resolution_divisors(#[trigger] resolutions[i]).contains(
            candidate,
        )
}

/// The common divisors below a bound are common divisors, below the bound, and ascending.
proof fn lemma_common_divisors_below(values: Seq<u32>, bound: int)
    requires
        bound <= 0x1_0000_0000,
    ensures
        forall|i: int|
            0 <= i < common_divisors_below(values, bound).len() ==> {
                &&& is_common_divisor(values, #[trigger] common_divisors_below(values, bound)[i])
                &&& 1 <= common_divisors_below(values, bound)[i] < bound
            },
        forall|i: int, j: int|
            0 <= i < j < common_divisors_below(values, bound).len() ==> common_divisors_below(
                values,
                bound,
            )[i] < common_divisors_below(values, bound)[j],
    decreases bound,
{
    if bound > 1 {
        lemma_common_divisors_below(values, bound - 1);
        let rest = common_divisors_below(values, bound - 1);
        let all = common_divisors_below(values, bound);
        assert forall|i: int| 0 <= i < all.len() implies {
            &&& is_common_divisor(values, #[trigger] all[i])
            &&& 1 <= all[i] < bound
        } by {
            if i < rest.len() {
                assert(all[i] == rest[i]);
            }
        }
        assert forall|i: int, j: int| 0 <= i < j < all.len() implies all[i] < all[j] by {
            assert(all[i] == rest[i]);
            if j < rest.len() {
                assert(all[j] == rest[j]);
            }
        }
    }
}

/// A larger divisor of a number gives a smaller quotient.
proof fn lemma_quotients_descend(value: u32, smaller: u32, larger: u32)
    requires
        1 <= smaller < larger,
        is_listed_divisor(value, smaller),
        is_listed_divisor(value, larger),
    ensures
        value / larger < value / smaller,
{
    vstd::arithmetic::div_mod::lemma_fundamental_div_mod(value as int, smaller as int);
    vstd::arithmetic::div_mod::lemma_fundamental_div_mod(value as int, larger as int);
    let a = value as int / smaller as int;
    let b = value as int / larger as int;
    assert(b < a) by (nonlinear_arith)
        requires
            value == smaller * a,
            value == larger * b,
            1 <= smaller < larger,
            value > 0,
    ;
}

/// Whether a list of resolutions holds `candidate`.
fn holds_resolution(list: &Vec<(u32, u32)>, candidate: (u32, u32)) -> (found: bool)
    ensures
        found == list@.contains(candidate),
{
    let mut i: usize = 0;
    while i < list.len()
        invariant
            i <= list.len(),
            forall|k: int| 0 <= k < i ==> list@[k] != candidate,
        decreases list.len() - i,
    {
        if list[i].0 == candidate.0 && list[i].1 == candidate.1 {
            return true;
        }
        i += 1;
    }
    false
}

/// The resolutions that every one of `resolutions` can be scaled down to, in
/// ascending order of width.
pub fn common_resolutions(resolutions: &[(u32, u32)]) -> (common: Vec<(u32, u32)>)
    requires
        resolutions@.len() > 0,
    ensures
        forall|i: int|
            0 <= i < common@.len() ==> is_common_resolution(resolutions@, #[trigger] common@[i]),
        forall|candidate: (u32, u32)|
            is_common_resolution(resolutions@, candidate) ==> common@.contains(candidate),
        forall|i: int, j: int|
            0 <= i < j < common@.len() ==> resolution_less(common@[i], common@[j]),
{
    let mut lists: Vec<Vec<(u32, u32)>> = Vec::new();
    let mut n: usize = 0;
    while n < resolutions.len()
        invariant
            n <= resolutions.len(),
            lists.len() == n,
            forall|k: int| 0 <= k < n ==> (#[trigger] lists[k])@ == resolution_divisors(resolutions@[k]),
        decreases resolutions.len() - n,
    {
        lists.push(get_all_resolution_divisors(resolutions[n]));
        n += 1;
    }
    let first = resolutions[0];
    let ghost divisors = resolution_common_divisors(first);
    let ghost candidates = resolution_divisors(first);
    proof {
        lemma_common_divisors_below(seq![first.0, first.1], (first.0 / 2) as int);
    }
    let mut common: Vec<(u32, u32)> = Vec::new();
    let mut i: usize = lists[0].len();
    while i > 0
        invariant
            i <= candidates.len(),
            resolutions@.len() > 0,
            first == resolutions@[0],
            divisors == resolution_common_divisors(first),
            candidates == resolution_divisors(first),
            lists.len() == resolutions@.len(),
            lists[0]@ == candidates,
            forall|k: int|
                0 <= k < lists.len() ==> (#[trigger] lists[k])@ == resolution_divisors(
                    resolutions@[k],
                ),
            forall|k: int|
                0 <= k < divisors.len() ==> is_common_divisor(
                    seq![first.0, first.1],
                    #[trigger] divisors[k],
                ) && 1 <= divisors[k],
            forall|a: int, b: int| 0 <= a < b < divisors.len() ==> divisors[a] < divisors[b],
            forall|k: int|
                0 <= k < common@.len() ==> is_common_resolution(resolutions@, #[trigger] common@[k]),
            forall|k: int|
                i <= k < candidates.len() && is_common_resolution(resolutions@, candidates[k])
                    ==> common@.contains(#[trigger] candidates[k]),
            forall|k: int|
                0 <= k < common@.len() ==> exists|c: int|
                    i <= c < candidates.len() && candidates[c] == #[trigger] common@[k],
            forall|a: int, b: int|
                0 <= a < b < common@.len() ==> resolution_less(common@[a], common@[b]),
        decreases i,
    {
        i -= 1;
        let candidate = lists[0][i];
        let ghost before = common@;
        let mut everywhere = true;
        let mut m: usize = 0;
        while m < lists.len()
            invariant
                m <= lists.len(),
                lists.len() == resolutions@.len(),
                forall|k: int|
                    0 <= k < lists.len() ==> (#[trigger] lists[k])@ == resolution_divisors(
                        resolutions@[k],
                    ),
                everywhere == (forall|k: int|
                    0 <= k < m ==> resolution_divisors(#[trigger] resolutions@[k]).contains(
                        candidate,
                    )),
            decreases lists.len() - m,
        {
            let found = holds_resolution(&lists[m], candidate);
            proof {
                assert(lists[m as int]@ == resolution_divisors(resolutions@[m as int]));
            }
            if !found {
                everywhere = false;
            }
            m += 1;
        }
        if everywhere {
            proof {
                // Everything kept so far came from a larger divisor, hence is narrower.
                assert forall|k: int| 0 <= k < before.len() implies resolution_less(
                    before[k],
                    candidate,
                ) by {
                    let c = choose|c: int| i < c < candidates.len() && candidates[c] == before[k];
                    assert(is_listed_divisor(seq![first.0, first.1][0], divisors[i as int]));
                    assert(is_listed_divisor(seq![first.0, first.1][0], divisors[c]));
                    lemma_quotients_descend(first.0, divisors[i as int], divisors[c]);
                }
            }
            common.push(candidate);
            proof {
                assert forall|k: int|
                    i <= k < candidates.len() && is_common_resolution(
                        resolutions@,
                        candidates[k],
                    ) implies common@.contains(#[trigger] candidates[k]) by {
                    if k == i as int {
                        assert(common@[before.len() as int] == candidates[k]);
                    } else {
                        let at = choose|at: int| 0 <= at < before.len() && before[at] == candidates[k];
                        assert(common@[at] == candidates[k]);
                    }
                }
                assert forall|k: int| 0 <= k < common@.len() implies exists|c: int|
                    i <= c < candidates.len() && candidates[c] == #[trigger] common@[k] by {
                    if k < before.len() {
                        let c = choose|c: int|
                            i < c < candidates.len() && candidates[c] == before[k];
                        assert(candidates[c] == common@[k]);
                    } else {
                        assert(candidates[i as int] == common@[k]);
                    }
                }
            }
        } else {
            proof {
                assert forall|k: int| 0 <= k < common@.len() implies exists|c: int|
                    i <= c < candidates.len() && candidates[c] == #[trigger] common@[k] by {
                    let c = choose|c: int| i < c < candidates.len() && candidates[c] == before[k];
                    assert(candidates[c] == common@[k]);
                }
            }
        }
    }
    proof {
        assert forall|candidate: (u32, u32)|
            is_common_resolution(resolutions@, candidate) implies common@.contains(candidate) by {
            assert(resolution_divisors(resolutions@[0]).contains(candidate));
            let k = choose|k: int| 0 <= k < candidates.len() && candidates[k] == candidate;
            assert(common@.contains(candidates[k]));
        }
    }
    common
}

} // verus!
