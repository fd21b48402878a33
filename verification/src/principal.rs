use vstd::prelude::*;

verus! {

/// An identity on the Internet Computer (a user or a canister), held as its
/// raw bytes.
#[derive(Debug)]
pub struct Principal {
    bytes: Vec<u8>,
}

impl View for Principal {
    type V = Seq<u8>;

    closed spec fn view(&self) -> Seq<u8> {
        self.bytes@
    }
}

impl Principal {
    /// The principal with the given bytes.
    pub fn from_slice(bytes: &[u8]) -> (p: Principal)
        ensures
            p@ == bytes@,
    {
        let mut v: Vec<u8> = Vec::new();
        let n: usize = bytes.len();
        for i in 0..n
            invariant
                n == bytes@.len(),
                v@ == bytes@.subrange(0, i as int),
        {
            v.push(bytes[i]);
        }
        assert(v@ =~= bytes@);
        Principal { bytes: v }
    }

    /// The bytes of this principal.
    pub fn as_slice(&self) -> (s: &[u8])
        ensures
            s@ == self@,
    {
        self.bytes.as_slice()
    }

    /// The anonymous principal: the single byte 4.
    pub fn anonymous() -> (p: Principal)
        ensures
            p@ == seq![4u8],
    {
        let mut v: Vec<u8> = Vec::new();
        v.push(4u8);
        assert(v@ =~= seq![4u8]);
        Principal { bytes: v }
    }

    /// The management canister `aaaaa-aa`: the empty principal.
    pub fn management_canister() -> (p: Principal)
        ensures
            p@ == Seq::<u8>::empty(),
    {
        let v: Vec<u8> = Vec::new();
        Principal { bytes: v }
    }

    /// The canister with the given numeric id: its id in eight big-endian
    /// bytes, then the bytes 1 and 1.
    pub fn canister_from_u64(id: u64) -> (p: Principal)
        ensures
            p@ == canister_id_bytes(id),
    {
        let mut v: Vec<u8> = Vec::new();
        let mut k: u64 = 0;
        while k < 8
            invariant
                k <= 8,
                v@.len() == k,
                forall|j: int| 0 <= j < k ==> v@[j] == canister_id_byte(id, j),
            decreases 8 - k,
        {
            let shift: u64 = 56 - 8 * k;
            let b: u8 = ((id >> shift) & 0xff) as u8;
            v.push(b);
            k = k + 1;
        }
        v.push(1u8);
        v.push(1u8);
        assert(v@ =~= canister_id_bytes(id));
        Principal { bytes: v }
    }

    /// Whether two principals are the same.
    pub fn same(&self, other: &Principal) -> (r: bool)
        ensures
            r == (self@ == other@),
    {
        let n: usize = self.bytes.len();
        if n != other.bytes.len() {
            return false;
        }
        for i in 0..n
            invariant
                n == self.bytes@.len(),
                n == other.bytes@.len(),
                forall|j: int| 0 <= j < i ==> self.bytes@[j] == other.bytes@[j],
        {
            if self.bytes[i] != other.bytes[i] {
                return false;
            }
        }
        assert(self.bytes@ =~= other.bytes@);
        true
    }

    /// A second principal equal to this one.
    pub fn duplicate(&self) -> (r: Principal)
        ensures
            r@ == self@,
    {
        Principal::from_slice(self.bytes.as_slice())
    }
}

/// Byte `j` of the big-endian encoding of `id`.
pub open spec fn canister_id_byte(id: u64, j: int) -> u8 {
    ((id >> ((56 - 8 * j) as u64)) & 0xff) as u8
}

/// The bytes of the canister principal with numeric id `id`.
pub open spec fn canister_id_bytes(id: u64) -> Seq<u8> {
    Seq::new(8, |j: int| canister_id_byte(id, j)) + seq![1u8, 1u8]
}

} // verus!
