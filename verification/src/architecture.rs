//! The architecture model: an immutable description of the target DRAM module
//! and pure arithmetic on packed row addresses.
//!
//! A packed row address keeps the subarray id in its high bits and the row
//! index within that subarray in its low bits.

use vstd::prelude::*;
use vstd::string::StringExecFns;

verus! {

/// Number of subarrays in a DRAM module.
pub const NR_SUBARRAYS: u64 = 128;

/// Number of rows in a single subarray.
pub const ROWS_PER_SUBARRAY: u64 = 512;

/// Width in bits of the local-row field of a packed address;
/// `1 << LOCAL_ROW_BITS` equals `ROWS_PER_SUBARRAY`.
pub const LOCAL_ROW_BITS: u64 = 9;

/// The seven highest bits of a packed row address hold the subarray id.
pub const SUBARRAY_ID_BITMASK: u64 = 0xfe00;

/// The nine lowest bits of a packed row address hold the row index within the
/// subarray.
pub const ROW_ID_BITMASK: u64 = 0x1ff;

/// Subarray id encoded in a packed row address: the bits above the local-row
/// field.
pub open spec fn spec_subarray_of(addr: u64) -> int {
    (addr as int / ROWS_PER_SUBARRAY as int) % NR_SUBARRAYS as int
}

/// Local row index encoded in a packed row address: the low bits.
pub open spec fn spec_local_of(addr: u64) -> int {
    addr as int % ROWS_PER_SUBARRAY as int
}

/// Packed address of a (subarray id, local row) pair.
pub open spec fn spec_pack(subarray_id: u64, local_row: u64) -> int {
    subarray_id as int * ROWS_PER_SUBARRAY as int + local_row as int
}

/// Partner of a subarray: the neighbour it may exchange rows with.
/// Subarrays are paired two by two.
pub open spec fn spec_partner(id: u64) -> u64 {
    id ^ 1
}

/// Description of the DRAM module the program is compiled for.
#[derive(Clone, Copy, PartialEq, Eq, Structural, Debug)]
pub struct PRADAArchitecture {
    /// Nr of subarrays in a DRAM module.
    pub nr_subarrays: u64,
    /// Nr of rows in a single subarray.
    pub rows_per_subarray: u64,
}

impl PRADAArchitecture {
    /// Builds an architecture description from its two dimensions.
    pub fn new(nr_subarrays: u64, rows_per_subarray: u64) -> (r: Self)
        ensures
            r.nr_subarrays == nr_subarrays,
            r.rows_per_subarray == rows_per_subarray,
    {
        Self { nr_subarrays, rows_per_subarray }
    }
}

/// A packed DRAM row address. Must be smaller than
/// `rows_per_subarray * nr_subarrays`.
#[derive(Clone, Copy, PartialEq, Eq, Structural, Debug)]
pub struct RowAddress(pub u64);

/// Packed address of the first row of a subarray.
pub fn subarrayid_to_subarray_address(subarray_id: SubarrayId) -> (r: RowAddress)
    requires
        subarray_id.0 < NR_SUBARRAYS,
    ensures
        r.0 == spec_pack(subarray_id.0, 0),
        r.0 < NR_SUBARRAYS * ROWS_PER_SUBARRAY,
{
    let s = subarray_id.0;
    proof {
        assert(s < 128 ==> (s << 9) == s * 512 && (s << 9) < 128 * 512) by (bit_vector);
    }
    RowAddress(s << LOCAL_ROW_BITS)
}

/// Packed address of a given local row within a given subarray.
pub fn pack_address(subarray_id: SubarrayId, local_row: u64) -> (r: RowAddress)
    requires
        subarray_id.0 < NR_SUBARRAYS,
        local_row < ROWS_PER_SUBARRAY,
    ensures
        r.0 == spec_pack(subarray_id.0, local_row),
        r.0 < NR_SUBARRAYS * ROWS_PER_SUBARRAY,
{
    let s = subarray_id.0;
    proof {
        assert(s < 128 && local_row < 512 ==> ((s << 9) | local_row) == s * 512 + local_row
            && ((s << 9) | local_row) < 128 * 512) by (bit_vector);
    }
    RowAddress((s << LOCAL_ROW_BITS) | local_row)
}

impl RowAddress {
    /// Returns the subarray id the row lies in.
    pub fn get_subarray_id(&self) -> (r: SubarrayId)
        ensures
            r.0 == spec_subarray_of(self.0),
            r.0 < NR_SUBARRAYS,
    {
        let a = self.0;
        proof {
            assert((a & 0xfe00) >> 9 == (a / 512) % 128 && (a / 512) % 128 < 128)
                by (bit_vector);
        }
        SubarrayId((a & SUBARRAY_ID_BITMASK) >> LOCAL_ROW_BITS)
    }

    /// Returns the row index within the subarray the row lies in.
    pub fn get_local_row(&self) -> (r: u64)
        ensures
            r == spec_local_of(self.0),
    {
        let a = self.0;
        proof {
            assert(a & 0x1ff == a % 512) by (bit_vector);
        }
        a & ROW_ID_BITMASK
    }

    /// Reprojects the address onto another subarray: same local row, different
    /// subarray id.
    pub fn local_rowaddress_to_subarray_id(&self, subarray_id: SubarrayId) -> (r: RowAddress)
        requires
            subarray_id.0 < NR_SUBARRAYS,
        ensures
            spec_subarray_of(r.0) == subarray_id.0,
            spec_local_of(r.0) == spec_local_of(self.0),
            r.0 < NR_SUBARRAYS * ROWS_PER_SUBARRAY,
    {
        let a = self.0;
        let s = subarray_id.0;
        let local_row_address = a & ROW_ID_BITMASK;
        let packed = subarrayid_to_subarray_address(subarray_id);
        proof {
            assert(s < 128 ==> ((a & 0x1ff) | (s << 9)) / 512 % 128 == s
                && ((a & 0x1ff) | (s << 9)) % 512 == a % 512
                && ((a & 0x1ff) | (s << 9)) < 128 * 512
                && (s << 9) == s * 512) by (bit_vector);
        }
        RowAddress(local_row_address | packed.0)
    }
}

impl From<u64> for RowAddress {
    fn from(value: u64) -> (r: Self) {
        RowAddress(value)
    }
}

impl vstd::std_specs::convert::FromSpecImpl<u64> for RowAddress {
    open spec fn obeys_from_spec() -> bool {
        true
    }

    open spec fn from_spec(value: u64) -> Self {
        RowAddress(value)
    }
}

/// Identifies one subarray: `0 <= id < NR_SUBARRAYS`.
#[derive(Clone, Copy, PartialEq, Eq, Structural, Debug)]
pub struct SubarrayId(pub u64);

impl SubarrayId {
    /// All operations pair two neighbouring subarrays into a compute/reference
    /// relation. This returns the other member of the pair.
    pub fn get_partner_subarray(&self) -> (r: Self)
        ensures
            r.0 == spec_partner(self.0),
    {
        let id = self.0;
        if id % 2 == 0 {
            proof {
                assert(id % 2 == 0 ==> id < 0xffff_ffff_ffff_ffff && id + 1 == (id ^ 1))
                    by (bit_vector);
            }
            SubarrayId(id + 1)
        } else {
            proof {
                assert(id % 2 == 1 ==> id >= 1 && id - 1 == (id ^ 1)) by (bit_vector);
            }
            SubarrayId(id - 1)
        }
    }
}

/// The decimal digit character for one digit value.
pub open spec fn spec_digit_char(d: int) -> char {
    if d == 0 {
        '0'
    } else if d == 1 {
        '1'
    } else if d == 2 {
        '2'
    } else if d == 3 {
        '3'
    } else if d == 4 {
        '4'
    } else if d == 5 {
        '5'
    } else if d == 6 {
        '6'
    } else if d == 7 {
        '7'
    } else if d == 8 {
        '8'
    } else {
        '9'
    }
}

/// The decimal rendering of a nonnegative integer, most significant digit
/// first.
pub open spec fn spec_decimal(n: int) -> Seq<char>
    decreases n,
{
    if n < 0 {
        Seq::empty()
    } else if n < 10 {
        seq![spec_digit_char(n)]
    } else {
        spec_decimal(n / 10).push(spec_digit_char(n % 10))
    }
}

/// The one-character string for a digit.
fn digit_str(d: u64) -> (s: &'static str)
    requires
        d < 10,
    ensures
        s@ == seq![spec_digit_char(d as int)],
{
    if d == 0 {
        proof {
            reveal_strlit("0");
            assert("0"@ =~= seq![spec_digit_char(0int)]);
        }
        "0"
    } else if d == 1 {
        proof {
            reveal_strlit("1");
            assert("1"@ =~= seq![spec_digit_char(1int)]);
        }
        "1"
    } else if d == 2 {
        proof {
            reveal_strlit("2");
            assert("2"@ =~= seq![spec_digit_char(2int)]);
        }
        "2"
    } else if d == 3 {
        proof {
            reveal_strlit("3");
            assert("3"@ =~= seq![spec_digit_char(3int)]);
        }
        "3"
    } else if d == 4 {
        proof {
            reveal_strlit("4");
            assert("4"@ =~= seq![spec_digit_char(4int)]);
        }
        "4"
    } else if d == 5 {
        proof {
            reveal_strlit("5");
            assert("5"@ =~= seq![spec_digit_char(5int)]);
        }
        "5"
    } else if d == 6 {
        proof {
            reveal_strlit("6");
            assert("6"@ =~= seq![spec_digit_char(6int)]);
        }
        "6"
    } else if d == 7 {
        proof {
            reveal_strlit("7");
            assert("7"@ =~= seq![spec_digit_char(7int)]);
        }
        "7"
    } else if d == 8 {
        proof {
            reveal_strlit("8");
            assert("8"@ =~= seq![spec_digit_char(8int)]);
        }
        "8"
    } else {
        proof {
            reveal_strlit("9");
            assert("9"@ =~= seq![spec_digit_char(9int)]);
        }
        "9"
    }
}

/// Renders an unsigned integer in decimal.
pub fn u64_to_string(n: u64) -> (s: String)
    ensures
        s@ == spec_decimal(n as int),
    decreases n,
{
    if n < 10 {
        digit_str(n).to_owned()
    } else {
        let pre = u64_to_string(n / 10);
        let ds = digit_str(n % 10);
        let out = pre.concat(ds);
        proof {
            assert(out@ =~= spec_decimal(n as int));
        }
        out
    }
}

/// The text form of a row address: subarray id and local row as unsigned
/// decimals, separated by a dot.
pub open spec fn spec_render_address(a: RowAddress) -> Seq<char> {
    spec_decimal(spec_subarray_of(a.0)) + "."@ + spec_decimal(spec_local_of(a.0))
}

impl RowAddress {
    /// Renders the address as `subarray.local`.
    pub fn render(&self) -> (s: String)
        ensures
            s@ == spec_render_address(*self),
    {
        let sub = self.get_subarray_id();
        let local = self.get_local_row();
        let s1 = u64_to_string(sub.0);
        let s2 = u64_to_string(local);
        let out = s1.concat(".").concat(s2.as_str());
        proof {
            assert(out@ =~= spec_render_address(*self));
        }
        out
    }
}

impl SubarrayId {
    /// Renders the subarray id as an unsigned decimal.
    pub fn render(&self) -> (s: String)
        ensures
            s@ == spec_decimal(self.0 as int),
    {
        u64_to_string(self.0)
    }
}

/// Packing a subarray id and a local row and extracting the two fields again
/// gives back exactly the pair that was packed.
pub proof fn lemma_address_round_trip(sub: u64, local: u64)
    requires
        sub < NR_SUBARRAYS,
        local < ROWS_PER_SUBARRAY,
    ensures
        spec_subarray_of((sub * ROWS_PER_SUBARRAY + local) as u64) == sub,
        spec_local_of((sub * ROWS_PER_SUBARRAY + local) as u64) == local,
{
    assert(sub < 128 && local < 512 ==> ((sub * 512 + local) as u64) / 512 % 128 == sub
        && ((sub * 512 + local) as u64) % 512 == local) by (bit_vector);
}

/// The partner relation is an involution without fixed points: applying it
/// twice gives the subarray back, and no subarray is its own partner.
pub proof fn lemma_partner_involution(id: u64)
    requires
        id < NR_SUBARRAYS,
    ensures
        spec_partner(spec_partner(id)) == id,
        spec_partner(id) != id,
{
    assert((id ^ 1) ^ 1 == id && (id ^ 1) != id) by (bit_vector);
}

} // verus!
