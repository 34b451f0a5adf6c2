//! The Lightning feature bitfield: two bits per feature, three states each.
use vstd::prelude::*;
use crate::cursor::{WriteCursor, be_bytes};
use smallvec::SmallVec;

verus! {

/// Whether a peer supports a feature, and whether it insists on it.
#[derive(Debug, PartialEq, Eq, Structural, Clone, Copy)]
pub enum FeatureFlag {
    No,
    Optional,
    Required,
}

/// A feature that the protocol never lets a peer require.
#[derive(Debug, PartialEq, Eq, Structural, Clone, Copy)]
pub enum OptionalFeatureFlag {
    No,
    Optional,
}

/// The bit pair `0b11`, which encodes no state.
#[derive(Debug, PartialEq, Eq, Structural, Clone, Copy)]
pub struct MalformedFeatureFlagError;

/// Why a bitfield was refused; `index` is the even bit index of the feature.
#[derive(Debug, PartialEq, Eq, Structural, Clone, Copy)]
pub enum FilterFeaturesError {
    UnknownRequiredFeature { index: usize },
    FeatureMustNotBeRequired { index: usize },
}

#[derive(Debug, PartialEq, Eq, Structural, Clone, Copy)]
pub struct FilterGlobalFeaturesError(pub FilterFeaturesError);

#[derive(Debug, PartialEq, Eq, Structural, Clone, Copy)]
pub struct FilterLocalFeaturesError(pub FilterFeaturesError);

impl From<FilterFeaturesError> for FilterGlobalFeaturesError {
    fn from(err: FilterFeaturesError) -> (r: FilterGlobalFeaturesError)
        ensures
            r == FilterGlobalFeaturesError(err),
    {
        FilterGlobalFeaturesError(err)
    }
}

impl vstd::std_specs::convert::FromSpecImpl<FilterFeaturesError> for FilterGlobalFeaturesError {
    open spec fn obeys_from_spec() -> bool {
        true
    }

    open spec fn from_spec(err: FilterFeaturesError) -> FilterGlobalFeaturesError {
        FilterGlobalFeaturesError(err)
    }
}

impl From<FilterFeaturesError> for FilterLocalFeaturesError {
    fn from(err: FilterFeaturesError) -> (r: FilterLocalFeaturesError)
        ensures
            r == FilterLocalFeaturesError(err),
    {
        FilterLocalFeaturesError(err)
    }
}

impl vstd::std_specs::convert::FromSpecImpl<FilterFeaturesError> for FilterLocalFeaturesError {
    open spec fn obeys_from_spec() -> bool {
        true
    }

    open spec fn from_spec(err: FilterFeaturesError) -> FilterLocalFeaturesError {
        FilterLocalFeaturesError(err)
    }
}

/// The two-bit code of a flag: `00` no, `01` required, `10` optional.
pub open spec fn flag_code(f: FeatureFlag) -> u8 {
    match f {
        FeatureFlag::No => 0,
        FeatureFlag::Required => 1,
        FeatureFlag::Optional => 2,
    }
}

/// The flag a two-bit code stands for (`0b11` has none and reads as `No` here).
pub open spec fn flag_of_code(d: u8) -> FeatureFlag {
    if d == 1 {
        FeatureFlag::Required
    } else if d == 2 {
        FeatureFlag::Optional
    } else {
        FeatureFlag::No
    }
}

pub open spec fn optional_code(f: OptionalFeatureFlag) -> u8 {
    match f {
        OptionalFeatureFlag::No => 0,
        OptionalFeatureFlag::Optional => 2,
    }
}

/// The two bits of feature slot `k`, that is of bit indices `2k + 1` and `2k`;
/// the last byte holds bits 0 to 7.
pub open spec fn slot_bits(bytes: Seq<u8>, k: int) -> u8 {
    (bytes[bytes.len() - 1 - k / 4] >> (2 * (k % 4)) as u8) & 3u8
}

/// No slot of the bitfield holds `0b11`.
pub open spec fn bitfield_well_formed(bytes: Seq<u8>) -> bool {
    forall|k: int| 0 <= k < 4 * bytes.len() ==> slot_bits(bytes, k) != 3u8
}

/// The flag of every slot of the bitfield, lowest bit index first.
pub open spec fn parse_bitfield(bytes: Seq<u8>) -> Seq<FeatureFlag> {
    Seq::new(4 * bytes.len(), |k: int| flag_of_code(slot_bits(bytes, k)))
}

/// The code of slot `k`; slots past the end are `No`.
pub open spec fn slot_code(flags: Seq<FeatureFlag>, k: int) -> u8 {
    if 0 <= k < flags.len() {
        flag_code(flags[k])
    } else {
        0
    }
}

/// The byte that holds slots `4j` to `4j + 3`.
pub open spec fn packed_byte(flags: Seq<FeatureFlag>, j: int) -> u8 {
    slot_code(flags, 4 * j) | (slot_code(flags, 4 * j + 1) << 2u8) | (slot_code(flags, 4 * j + 2)
        << 4u8) | (slot_code(flags, 4 * j + 3) << 6u8)
}

/// The code of slot `s` once the slots below `k` are written.
pub open spec fn below_code(flags: Seq<FeatureFlag>, s: int, k: int) -> u8 {
    if s < k {
        slot_code(flags, s)
    } else {
        0
    }
}

/// Byte `j` once the slots below `k` are written.
pub open spec fn partial_byte(flags: Seq<FeatureFlag>, j: int, k: int) -> u8 {
    below_code(flags, 4 * j, k) | (below_code(flags, 4 * j + 1, k) << 2u8) | (below_code(
        flags,
        4 * j + 2,
        k,
    ) << 4u8) | (below_code(flags, 4 * j + 3, k) << 6u8)
}

/// Writing slot `k` sets its bits in the byte that holds it and leaves the
/// other bytes alone.
proof fn lemma_partial_byte_step(flags: Seq<FeatureFlag>, j: int, k: int)
    requires
        0 <= k,
    ensures
        j == k / 4 ==> partial_byte(flags, j, k + 1) == partial_byte(flags, j, k) | (slot_code(
            flags,
            k,
        ) << (2 * (k % 4)) as u8),
        j != k / 4 ==> partial_byte(flags, j, k + 1) == partial_byte(flags, j, k),
{
    let a = below_code(flags, 4 * j, k);
    let b = below_code(flags, 4 * j + 1, k);
    let c = below_code(flags, 4 * j + 2, k);
    let d = below_code(flags, 4 * j + 3, k);
    let x = slot_code(flags, k);
    if j == k / 4 {
        let q = k % 4;
        assert(k == 4 * j + q);
        if q == 0 {
            assert(a == 0u8);
            assert((0u8 | (b << 2u8) | (c << 4u8) | (d << 6u8)) | (x << 0u8) == x | (b << 2u8) | (c
                << 4u8) | (d << 6u8)) by (bit_vector);
        } else if q == 1 {
            assert(b == 0u8);
            assert((a | (0u8 << 2u8) | (c << 4u8) | (d << 6u8)) | (x << 2u8) == a | (x << 2u8) | (c
                << 4u8) | (d << 6u8)) by (bit_vector);
        } else if q == 2 {
            assert(c == 0u8);
            assert((a | (b << 2u8) | (0u8 << 4u8) | (d << 6u8)) | (x << 4u8) == a | (b << 2u8) | (x
                << 4u8) | (d << 6u8)) by (bit_vector);
        } else {
            assert(d == 0u8);
            assert((a | (b << 2u8) | (c << 4u8) | (0u8 << 6u8)) | (x << 6u8) == a | (b << 2u8) | (c
                << 4u8) | (x << 6u8)) by (bit_vector);
        }
    }
}

/// The flags packed into the fewest bytes, most significant byte first.
pub open spec fn serialize_bitfield(flags: Seq<FeatureFlag>) -> Seq<u8> {
    let n = (flags.len() + 3) / 4;
    Seq::new(n as nat, |i: int| packed_byte(flags, n - 1 - i))
}

/// The flag at an even bit index; indices past the end are `No`.
pub open spec fn flag_at(flags: Seq<FeatureFlag>, index: int) -> FeatureFlag {
    if 0 <= index / 2 < flags.len() {
        flags[index / 2]
    } else {
        FeatureFlag::No
    }
}

pub open spec fn to_optional(f: FeatureFlag) -> Option<OptionalFeatureFlag> {
    match f {
        FeatureFlag::No => Some(OptionalFeatureFlag::No),
        FeatureFlag::Optional => Some(OptionalFeatureFlag::Optional),
        FeatureFlag::Required => None,
    }
}

/// Slot `k` is the first required slot at or after `from`.
pub open spec fn is_first_required(flags: Seq<FeatureFlag>, from: int, k: int) -> bool {
    from <= k < flags.len() && flags[k] == FeatureFlag::Required && forall|j: int|
        from <= j < k ==> flags[j] != FeatureFlag::Required
}

/// `e` names the first required slot at or after `from`.
pub open spec fn first_required_error(flags: Seq<FeatureFlag>, from: int, e: FilterFeaturesError) -> bool {
    exists|k: int|
        is_first_required(flags, from, k) && e == (FilterFeaturesError::UnknownRequiredFeature {
            index: (2 * k) as usize,
        })
}

pub open spec fn none_required_between(flags: Seq<FeatureFlag>, from: int, to: int) -> bool {
    forall|j: int| from <= j < to && j < flags.len() ==> flags[j] != FeatureFlag::Required
}

pub open spec fn none_required(flags: Seq<FeatureFlag>, from: int) -> bool {
    forall|j: int| from <= j < flags.len() ==> flags[j] != FeatureFlag::Required
}

impl FeatureFlag {
    /// Reads the flag at the even bit index `index`; past the end it is `No`.
    fn from_index(bits: &[u8], index: usize) -> (r: Result<FeatureFlag, MalformedFeatureFlagError>)
        requires
            index % 2 == 0,
        ensures
            index / 2 >= 4 * bits@.len() ==> r == Ok::<FeatureFlag, MalformedFeatureFlagError>(
                FeatureFlag::No,
            ),
            index / 2 < 4 * bits@.len() ==> r == if slot_bits(bits@, (index / 2) as int) == 3u8 {
                Err::<FeatureFlag, MalformedFeatureFlagError>(MalformedFeatureFlagError)
            } else {
                Ok(flag_of_code(slot_bits(bits@, (index / 2) as int)))
            },
    {
        let slot = index / 2;
        if slot / 4 >= bits.len() {
            return Ok(FeatureFlag::No);
        }
        let byte = bits[bits.len() - 1 - slot / 4];
        let shift = (2 * (slot % 4)) as u8;
        let flags = (byte >> shift) & 3u8;
        assert(flags <= 3u8) by (bit_vector)
            requires
                flags == (byte >> shift) & 3u8,
        ;
        assert(flags == slot_bits(bits@, slot as int));
        if flags == 0 {
            Ok(FeatureFlag::No)
        } else if flags == 1 {
            Ok(FeatureFlag::Required)
        } else if flags == 2 {
            Ok(FeatureFlag::Optional)
        } else {
            Err(MalformedFeatureFlagError)
        }
    }

    /// Sets this flag's two bits at the even bit index `index`.
    fn to_index(self, bits: &mut Vec<u8>, index: usize)
        requires
            index % 2 == 0,
            index / 8 < old(bits)@.len(),
        ensures
            final(bits)@ == old(bits)@.update(
                old(bits)@.len() - 1 - index / 8,
                old(bits)@[old(bits)@.len() - 1 - index / 8] | (flag_code(self) << (index % 8) as u8),
            ),
    {
        let pos = bits.len() - 1 - index / 8;
        let flags = self.code();
        bits.set(pos, bits[pos] | (flags << ((index % 8) as u8)));
    }

    fn code(self) -> (r: u8)
        ensures
            r == flag_code(self),
    {
        match self {
            FeatureFlag::No => 0,
            FeatureFlag::Required => 1,
            FeatureFlag::Optional => 2,
        }
    }

    fn try_to_optional(self) -> (r: Option<OptionalFeatureFlag>)
        ensures
            r == to_optional(self),
    {
        match self {
            FeatureFlag::No => Some(OptionalFeatureFlag::No),
            FeatureFlag::Required => None,
            FeatureFlag::Optional => Some(OptionalFeatureFlag::Optional),
        }
    }
}

impl OptionalFeatureFlag {
    /// Sets this flag's two bits at the even bit index `index`.
    fn to_index(self, bits: &mut Vec<u8>, index: usize)
        requires
            index % 2 == 0,
            index / 8 < old(bits)@.len(),
        ensures
            final(bits)@ == old(bits)@.update(
                old(bits)@.len() - 1 - index / 8,
                old(bits)@[old(bits)@.len() - 1 - index / 8] | (optional_code(self) << (index % 8) as u8),
            ),
    {
        let pos = bits.len() - 1 - index / 8;
        let flags = self.code();
        bits.set(pos, bits[pos] | (flags << ((index % 8) as u8)));
    }

    fn code(self) -> (r: u8)
        ensures
            r == optional_code(self),
    {
        match self {
            OptionalFeatureFlag::No => 0,
            OptionalFeatureFlag::Optional => 2,
        }
    }
}

/// A byte holds its four bit pairs and nothing else.
proof fn lemma_byte_of_pairs(x: u8)
    ensures
        x == ((x >> 0u8) & 3u8) | (((x >> 2u8) & 3u8) << 2u8) | (((x >> 4u8) & 3u8) << 4u8) | (((x
            >> 6u8) & 3u8) << 6u8),
{
    assert(x == ((x >> 0u8) & 3u8) | (((x >> 2u8) & 3u8) << 2u8) | (((x >> 4u8) & 3u8) << 4u8) | (((
    x >> 6u8) & 3u8) << 6u8)) by (bit_vector);
}

/// Slot `4j + q` of a parsed bitfield keeps the code of its two bits.
proof fn lemma_slot_code_of_parsed(bytes: Seq<u8>, j: int, q: int)
    requires
        bitfield_well_formed(bytes),
        0 <= j < bytes.len(),
        0 <= q < 4,
    ensures
        slot_code(parse_bitfield(bytes), 4 * j + q) == (bytes[bytes.len() - 1 - j] >> (2 * q) as u8)
            & 3u8,
{
    let k = 4 * j + q;
    assert(k / 4 == j && k % 4 == q);
    assert(slot_bits(bytes, k) != 3u8);
    let d = slot_bits(bytes, k);
    let x = bytes[bytes.len() - 1 - k / 4];
    let s = (2 * (k % 4)) as u8;
    assert(d <= 3u8) by (bit_vector)
        requires
            d == (x >> s) & 3u8,
    ;
}

/// Parsing a well-formed bitfield and serializing its flags gives back the
/// same bytes: every feature slot keeps its flag, and the flags fill exactly
/// `ceil(features / 4)` bytes.
pub proof fn lemma_bitfield_round_trip(bytes: Seq<u8>)
    requires
        bitfield_well_formed(bytes),
    ensures
        parse_bitfield(bytes).len() == 4 * bytes.len(),
        serialize_bitfield(parse_bitfield(bytes)).len() == (parse_bitfield(bytes).len() + 3) / 4,
        serialize_bitfield(parse_bitfield(bytes)) == bytes,
{
    let flags = parse_bitfield(bytes);
    let out = serialize_bitfield(flags);
    let n = bytes.len() as int;
    assert(out.len() == n);
    assert forall|i: int| 0 <= i < n implies out[i] == bytes[i] by {
        let j = n - 1 - i;
        let x = bytes[i];
        lemma_slot_code_of_parsed(bytes, j, 0);
        lemma_slot_code_of_parsed(bytes, j, 1);
        lemma_slot_code_of_parsed(bytes, j, 2);
        lemma_slot_code_of_parsed(bytes, j, 3);
        assert(slot_code(flags, 4 * j) == (x >> 0u8) & 3u8);
        assert(slot_code(flags, 4 * j + 1) == (x >> 2u8) & 3u8);
        assert(slot_code(flags, 4 * j + 2) == (x >> 4u8) & 3u8);
        assert(slot_code(flags, 4 * j + 3) == (x >> 6u8) & 3u8);
        lemma_byte_of_pairs(x);
    }
    assert(out =~= bytes);
}

/// How many flags a bitfield's storage holds without allocating.
pub const NUM_KNOWN_FEATURES: usize = 4;

/// The flag storage, a `smallvec::SmallVec` that Verus sees only through the
/// functions below.
#[verifier::external_body]
#[derive(Debug, PartialEq, Eq)]
pub struct FlagVec {
    flags: SmallVec<[FeatureFlag; NUM_KNOWN_FEATURES]>,
}

/// The flags a small vector holds, in order.
pub uninterp spec fn flag_vec_contents(v: FlagVec) -> Seq<FeatureFlag>;

/// Relies on `smallvec::SmallVec::new`: the new vector is empty.
#[verifier::external_body]
fn new_flag_vec() -> (r: FlagVec)
    ensures
        flag_vec_contents(r) == Seq::<FeatureFlag>::empty(),
{
    FlagVec { flags: SmallVec::new() }
}

/// Relies on `smallvec::SmallVec::push`: the flag is appended.
#[verifier::external_body]
fn push_flag(v: &mut FlagVec, f: FeatureFlag)
    ensures
        flag_vec_contents(*final(v)) == flag_vec_contents(*old(v)).push(f),
{
    v.flags.push(f)
}

/// Relies on `smallvec::SmallVec::len`: the number of flags held.
#[verifier::external_body]
fn flag_vec_len(v: &FlagVec) -> (r: usize)
    ensures
        r == flag_vec_contents(*v).len(),
{
    v.flags.len()
}

/// Relies on indexing through `smallvec::SmallVec`'s `Deref` to a slice: the
/// flag at position `i`.
#[verifier::external_body]
fn flag_vec_get(v: &FlagVec, i: usize) -> (r: FeatureFlag)
    requires
        i < flag_vec_contents(*v).len(),
    ensures
        r == flag_vec_contents(*v)[i as int],
{
    v.flags[i]
}

/// The flags of a bitfield, one per even bit index.
#[derive(Debug, PartialEq, Eq)]
struct UnfilteredFeatures {
    feature_flags: FlagVec,
}

impl View for UnfilteredFeatures {
    type V = Seq<FeatureFlag>;

    closed spec fn view(&self) -> Seq<FeatureFlag> {
        flag_vec_contents(self.feature_flags)
    }
}

impl UnfilteredFeatures {
    pub fn from_feature_flags(bytes: &[u8]) -> (r: Result<UnfilteredFeatures, MalformedFeatureFlagError>)
        requires
            bytes@.len() <= usize::MAX / 8,
        ensures
            r.is_ok() == bitfield_well_formed(bytes@),
            r matches Ok(f) ==> f@ == parse_bitfield(bytes@),
    {
        let mut feature_flags = new_flag_vec();
        let n: usize = 4 * bytes.len();
        let mut slot: usize = 0;
        while slot < n
            invariant
                n == 4 * bytes@.len(),
                n <= usize::MAX / 2,
                slot <= n,
                flag_vec_contents(feature_flags) == parse_bitfield(bytes@).subrange(0, slot as int),
                forall|k: int| 0 <= k < slot ==> slot_bits(bytes@, k) != 3u8,
            decreases n - slot,
        {
            let feature_flag = FeatureFlag::from_index(bytes, 2 * slot)?;
            push_flag(&mut feature_flags, feature_flag);
            slot = slot + 1;
            assert(flag_vec_contents(feature_flags) =~= parse_bitfield(bytes@).subrange(0, slot as int));
        }
        assert(flag_vec_contents(feature_flags) =~= parse_bitfield(bytes@));
        Ok(UnfilteredFeatures { feature_flags })
    }

    /// The flags packed into bytes, without a length.
    fn to_bitfield(&self) -> (r: Vec<u8>)
        requires
            self@.len() <= usize::MAX / 4,
        ensures
            r@ == serialize_bitfield(self@),
    {
        let m = flag_vec_len(&self.feature_flags);
        let n: usize = (m + 3) / 4;
        let mut flags: Vec<u8> = Vec::new();
        while flags.len() < n
            invariant
                n == (self@.len() + 3) / 4,
                flags@.len() <= n,
                forall|i: int| 0 <= i < flags@.len() ==> flags@[i] == 0u8,
            decreases n - flags@.len(),
        {
            flags.push(0);
        }
        proof {
            assert forall|i: int| 0 <= i < n implies flags@[i] == partial_byte(self@, n - 1 - i, 0) by {
                let j = n - 1 - i;
                assert(partial_byte(self@, j, 0) == 0u8 | (0u8 << 2u8) | (0u8 << 4u8) | (0u8 << 6u8));
                assert(0u8 | (0u8 << 2u8) | (0u8 << 4u8) | (0u8 << 6u8) == 0u8) by (bit_vector);
            }
        }
        let mut k: usize = 0;
        while k < m
            invariant
                m == self@.len(),
                m <= usize::MAX / 4,
                n == (m + 3) / 4,
                k <= m,
                flags@.len() == n,
                forall|i: int| 0 <= i < n ==> flags@[i] == partial_byte(self@, n - 1 - i, k as int),
            decreases m - k,
        {
            let ghost before = flags@;
            flag_vec_get(&self.feature_flags, k).to_index(&mut flags, 2 * k);
            proof {
                assert forall|i: int| 0 <= i < n implies flags@[i] == partial_byte(
                    self@,
                    n - 1 - i,
                    k + 1,
                ) by {
                    lemma_partial_byte_step(self@, n - 1 - i, k as int);
                    if i == n - 1 - (k / 4) as int {
                        assert((2 * k) / 8 == k / 4);
                        assert((2 * k) % 8 == 2 * (k % 4));
                    }
                }
            }
            k = k + 1;
        }
        proof {
            assert forall|i: int| 0 <= i < n implies flags@[i] == packed_byte(self@, n - 1 - i) by {
                let j = n - 1 - i;
                assert(below_code(self@, 4 * j, m as int) == slot_code(self@, 4 * j));
                assert(below_code(self@, 4 * j + 1, m as int) == slot_code(self@, 4 * j + 1));
                assert(below_code(self@, 4 * j + 2, m as int) == slot_code(self@, 4 * j + 2));
                assert(below_code(self@, 4 * j + 3, m as int) == slot_code(self@, 4 * j + 3));
            }
        }
        assert(flags@ =~= serialize_bitfield(self@));
        flags
    }

    /// Writes the packed bitfield, without a length.
    pub fn write_to_cursor(&self, cursor: &mut WriteCursor)
        requires
            self@.len() <= usize::MAX / 4,
        ensures
            final(cursor).written() == old(cursor).written() + serialize_bitfield(self@),
    {
        let bits = self.to_bitfield();
        cursor.write_slice(bits.as_slice());
    }

    /// The number of bytes the packed bitfield takes: `ceil(features / 4)`.
    pub fn num_bytes(&self) -> (r: usize)
        ensures
            r == (self@.len() + 3) / 4,
    {
        let m = flag_vec_len(&self.feature_flags);
        if m % 4 == 0 {
            m / 4
        } else {
            m / 4 + 1
        }
    }

    /// The flag at an even bit index; past the end it is `No`.
    pub fn get_index(&self, index: usize) -> (r: FeatureFlag)
        requires
            index % 2 == 0,
        ensures
            r == flag_at(self@, index as int),
    {
        let half_index = index / 2;
        if half_index < flag_vec_len(&self.feature_flags) {
            flag_vec_get(&self.feature_flags, half_index)
        } else {
            FeatureFlag::No
        }
    }

    pub fn get_index_optional(&self, index: usize) -> (r: Result<OptionalFeatureFlag, FilterFeaturesError>)
        requires
            index % 2 == 0,
        ensures
            r == match to_optional(flag_at(self@, index as int)) {
                Some(f) => Ok::<OptionalFeatureFlag, FilterFeaturesError>(f),
                None => Err(FilterFeaturesError::FeatureMustNotBeRequired { index }),
            },
    {
        match self.get_index(index).try_to_optional() {
            Some(flag) => Ok(flag),
            None => Err(FilterFeaturesError::FeatureMustNotBeRequired { index }),
        }
    }

    /// The first required slot at or after `from`, as an error.
    fn reject_required_from(&self, from: usize) -> (r: Result<(), FilterFeaturesError>)
        requires
            self@.len() <= usize::MAX / 2,
        ensures
            r.is_ok() == none_required(self@, from as int),
            r matches Err(e) ==> first_required_error(self@, from as int, e),
    {
        let mut k: usize = from;
        while k < flag_vec_len(&self.feature_flags)
            invariant
                self@.len() <= usize::MAX / 2,
                from <= k,
                none_required_between(self@, from as int, k as int),
            decreases self@.len() - k,
        {
            if flag_vec_get(&self.feature_flags, k) == FeatureFlag::Required {
                assert(is_first_required(self@, from as int, k as int));
                return Err(FilterFeaturesError::UnknownRequiredFeature { index: 2 * k });
            }
            k = k + 1;
        }
        Ok(())
    }
}

/// Global features that passed filtering; none is known yet, so none was required.
#[derive(Debug, PartialEq, Eq, Clone, Copy)]
pub struct GlobalFeatures {
    _private: (),
}

/// Local features that passed filtering, with the four known ones read out.
#[derive(Debug, PartialEq, Eq, Structural, Clone, Copy)]
pub struct LocalFeatures {
    pub option_data_loss_protect: FeatureFlag,
    pub initial_routing_sync: OptionalFeatureFlag,
    pub option_upfront_shutdown_script: FeatureFlag,
    pub gossip_queries: FeatureFlag,
}

/// The single byte that carries the four known local features.
pub open spec fn local_features_byte(f: LocalFeatures) -> u8 {
    flag_code(f.option_data_loss_protect) | (optional_code(f.initial_routing_sync) << 2u8) | (
    flag_code(f.option_upfront_shutdown_script) << 4u8) | (flag_code(f.gossip_queries) << 6u8)
}

/// What filtering local features yields when it succeeds.
pub open spec fn known_local_features(flags: Seq<FeatureFlag>) -> LocalFeatures {
    LocalFeatures {
        option_data_loss_protect: flag_at(flags, 0),
        initial_routing_sync: to_optional(flag_at(flags, 2)).unwrap(),
        option_upfront_shutdown_script: flag_at(flags, 4),
        gossip_queries: flag_at(flags, 6),
    }
}

impl GlobalFeatures {
    pub fn write_to_cursor(&self, cursor: &mut WriteCursor)
        ensures
            final(cursor).written() == old(cursor).written() + be_bytes(0),
    {
        cursor.write_u16(0);
    }
}

impl LocalFeatures {
    pub fn write_to_cursor(&self, cursor: &mut WriteCursor)
        ensures
            final(cursor).written() == old(cursor).written() + be_bytes(1) + seq![
                local_features_byte(*self),
            ],
    {
        cursor.write_u16(1);
        let mut bytes: Vec<u8> = vec![0];
        self.option_data_loss_protect.to_index(&mut bytes, 0);
        self.initial_routing_sync.to_index(&mut bytes, 2);
        self.option_upfront_shutdown_script.to_index(&mut bytes, 4);
        self.gossip_queries.to_index(&mut bytes, 6);
        cursor.write_slice(bytes.as_slice());
        let ghost a = flag_code(self.option_data_loss_protect);
        let ghost b = optional_code(self.initial_routing_sync);
        let ghost c = flag_code(self.option_upfront_shutdown_script);
        let ghost d = flag_code(self.gossip_queries);
        assert(((((0u8 | (a << 0u8)) | (b << 2u8)) | (c << 4u8)) | (d << 6u8)) == a | (b << 2u8) | (c
            << 4u8) | (d << 6u8)) by (bit_vector);
        assert(bytes@ =~= seq![local_features_byte(*self)]);
    }
}

/// The global feature bitfield as parsed, before policy checks.
#[derive(Debug, PartialEq, Eq)]
pub struct UnfilteredGlobalFeatures {
    features: UnfilteredFeatures,
}

/// The local feature bitfield as parsed, before policy checks.
#[derive(Debug, PartialEq, Eq)]
pub struct UnfilteredLocalFeatures {
    features: UnfilteredFeatures,
}

impl View for UnfilteredGlobalFeatures {
    type V = Seq<FeatureFlag>;

    closed spec fn view(&self) -> Seq<FeatureFlag> {
        self.features@
    }
}

impl View for UnfilteredLocalFeatures {
    type V = Seq<FeatureFlag>;

    closed spec fn view(&self) -> Seq<FeatureFlag> {
        self.features@
    }
}

impl UnfilteredGlobalFeatures {
    pub fn from_feature_flags(bytes: &[u8]) -> (r: Result<
        UnfilteredGlobalFeatures,
        MalformedFeatureFlagError,
    >)
        requires
            bytes@.len() <= usize::MAX / 8,
        ensures
            r.is_ok() == bitfield_well_formed(bytes@),
            r matches Ok(f) ==> f@ == parse_bitfield(bytes@),
    {
        Ok(UnfilteredGlobalFeatures { features: UnfilteredFeatures::from_feature_flags(bytes)? })
    }

    /// Writes the packed bitfield, without a length.
    pub fn write_to_cursor(&self, cursor: &mut WriteCursor)
        requires
            self@.len() <= usize::MAX / 4,
        ensures
            final(cursor).written() == old(cursor).written() + serialize_bitfield(self@),
    {
        self.features.write_to_cursor(cursor);
    }

    /// The number of bytes the packed bitfield takes: `ceil(features / 4)`.
    pub fn num_bytes(&self) -> (r: usize)
        ensures
            r == (self@.len() + 3) / 4,
    {
        self.features.num_bytes()
    }

    /// Fails on the first required feature: no global feature is known.
    pub fn filter(&self) -> (r: Result<GlobalFeatures, FilterGlobalFeaturesError>)
        requires
            self@.len() <= usize::MAX / 2,
        ensures
            r.is_ok() == none_required(self@, 0),
            r matches Err(e) ==> first_required_error(self@, 0, e.0),
    {
        match self.features.reject_required_from(0) {
            Ok(()) => Ok(GlobalFeatures { _private: () }),
            Err(e) => Err(FilterGlobalFeaturesError(e)),
        }
    }
}

impl UnfilteredLocalFeatures {
    pub fn from_feature_flags(bytes: &[u8]) -> (r: Result<
        UnfilteredLocalFeatures,
        MalformedFeatureFlagError,
    >)
        requires
            bytes@.len() <= usize::MAX / 8,
        ensures
            r.is_ok() == bitfield_well_formed(bytes@),
            r matches Ok(f) ==> f@ == parse_bitfield(bytes@),
    {
        Ok(UnfilteredLocalFeatures { features: UnfilteredFeatures::from_feature_flags(bytes)? })
    }

    /// Writes the packed bitfield, without a length.
    pub fn write_to_cursor(&self, cursor: &mut WriteCursor)
        requires
            self@.len() <= usize::MAX / 4,
        ensures
            final(cursor).written() == old(cursor).written() + serialize_bitfield(self@),
    {
        self.features.write_to_cursor(cursor);
    }

    /// The number of bytes the packed bitfield takes: `ceil(features / 4)`.
    pub fn num_bytes(&self) -> (r: usize)
        ensures
            r == (self@.len() + 3) / 4,
    {
        self.features.num_bytes()
    }

    /// Reads the four known features; fails if `initial_routing_sync` is
    /// required, or else on the first required unknown feature.
    pub fn filter(&self) -> (r: Result<LocalFeatures, FilterLocalFeaturesError>)
        requires
            self@.len() <= usize::MAX / 2,
        ensures
            to_optional(flag_at(self@, 2)) is None ==> r == Err::<
                LocalFeatures,
                FilterLocalFeaturesError,
            >(FilterLocalFeaturesError(FilterFeaturesError::FeatureMustNotBeRequired { index: 2 })),
            to_optional(flag_at(self@, 2)) is Some ==> (r.is_ok() == none_required(self@, 4)),
            to_optional(flag_at(self@, 2)) is Some ==> (r matches Err(e) ==> first_required_error(
                self@,
                4,
                e.0,
            )),
            r matches Ok(f) ==> f == known_local_features(self@),
    {
        let option_data_loss_protect = self.features.get_index(0);
        let initial_routing_sync = match self.features.get_index_optional(2) {
            Ok(f) => f,
            Err(e) => return Err(FilterLocalFeaturesError(e)),
        };
        let option_upfront_shutdown_script = self.features.get_index(4);
        let gossip_queries = self.features.get_index(6);
        match self.features.reject_required_from(4) {
            Ok(()) => Ok(
                LocalFeatures {
                    option_data_loss_protect,
                    initial_routing_sync,
                    option_upfront_shutdown_script,
                    gossip_queries,
                },
            ),
            Err(e) => Err(FilterLocalFeaturesError(e)),
        }
    }
}

} // verus!
