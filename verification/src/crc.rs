//! The record checksum: CRC-16/XMODEM (polynomial 0x1021, initial value 0,
//! no reflection, no final xor), fed span by span.

use vstd::prelude::*;

verus! {

/// One shift of the checksum register: the register moves left by one bit and
/// the polynomial is folded in when the bit shifted out was set.
pub open spec fn crc_shift(reg: u16) -> u16 {
    if reg & 0x8000 != 0 {
        (reg << 1) ^ 0x1021
    } else {
        reg << 1
    }
}

/// Eight shifts in a row.
pub open spec fn crc_shift8(reg: u16) -> u16 {
    crc_shift(crc_shift(crc_shift(crc_shift(crc_shift(crc_shift(crc_shift(crc_shift(reg))))))))
}

/// The register after one more byte: the byte enters at the high end and is
/// then shifted through.
pub open spec fn crc_byte(reg: u16, byte: u8) -> u16 {
    crc_shift8(reg ^ ((byte as u16) << 8))
}

/// The register after a span of bytes, starting from `reg`.
pub open spec fn crc_fold(reg: u16, bytes: Seq<u8>) -> u16
    decreases bytes.len(),
{
    if bytes.len() == 0 {
        reg
    } else {
        crc_byte(crc_fold(reg, bytes.drop_last()), bytes.last())
    }
}

/// The checksum of a whole message.
pub open spec fn crc16_xmodem(bytes: Seq<u8>) -> u16 {
    crc_fold(0, bytes)
}

/// Two different registers stay different after the same byte.
pub proof fn lemma_crc_byte_keeps_registers_apart(a: u16, b: u16, byte: u8)
    requires
        a != b,
    ensures
        crc_byte(a, byte) != crc_byte(b, byte),
{
    let m: u16 = (byte as u16) << 8;
    let x: u16 = a ^ m;
    let y: u16 = b ^ m;
    assert(x != y) by (bit_vector)
        requires
            a != b,
            x == a ^ m,
            y == b ^ m,
    ;
    lemma_crc_shift8_injective(x, y);
}

/// Two different bytes lead one register to two different registers.
pub proof fn lemma_crc_byte_tells_bytes_apart(reg: u16, x: u8, y: u8)
    requires
        x != y,
    ensures
        crc_byte(reg, x) != crc_byte(reg, y),
{
    let p: u16 = reg ^ ((x as u16) << 8);
    let q: u16 = reg ^ ((y as u16) << 8);
    assert(p != q) by (bit_vector)
        requires
            x != y,
            p == reg ^ ((x as u16) << 8),
            q == reg ^ ((y as u16) << 8),
    ;
    lemma_crc_shift8_injective(p, q);
}

proof fn lemma_crc_shift_injective(a: u16, b: u16)
    requires
        a != b,
    ensures
        crc_shift(a) != crc_shift(b),
{
    assert(a != b ==> (if a & 0x8000 != 0 {
        (a << 1) ^ 0x1021
    } else {
        a << 1
    }) != (if b & 0x8000 != 0 {
        (b << 1) ^ 0x1021
    } else {
        b << 1
    })) by (bit_vector);
}

proof fn lemma_crc_shift8_injective(a: u16, b: u16)
    requires
        a != b,
    ensures
        crc_shift8(a) != crc_shift8(b),
{
    let a1 = crc_shift(a);
    let b1 = crc_shift(b);
    lemma_crc_shift_injective(a, b);
    let a2 = crc_shift(a1);
    let b2 = crc_shift(b1);
    lemma_crc_shift_injective(a1, b1);
    let a3 = crc_shift(a2);
    let b3 = crc_shift(b2);
    lemma_crc_shift_injective(a2, b2);
    let a4 = crc_shift(a3);
    let b4 = crc_shift(b3);
    lemma_crc_shift_injective(a3, b3);
    let a5 = crc_shift(a4);
    let b5 = crc_shift(b4);
    lemma_crc_shift_injective(a4, b4);
    let a6 = crc_shift(a5);
    let b6 = crc_shift(b5);
    lemma_crc_shift_injective(a5, b5);
    let a7 = crc_shift(a6);
    let b7 = crc_shift(b6);
    lemma_crc_shift_injective(a6, b6);
    lemma_crc_shift_injective(a7, b7);
}

/// Folding two spans one after the other is folding their concatenation.
pub proof fn lemma_crc_fold_concat(reg: u16, first: Seq<u8>, second: Seq<u8>)
    ensures
        crc_fold(crc_fold(reg, first), second) == crc_fold(reg, first + second),
    decreases second.len(),
{
    if second.len() == 0 {
        assert(first + second =~= first);
    } else {
        lemma_crc_fold_concat(reg, first, second.drop_last());
        assert((first + second).drop_last() =~= first + second.drop_last());
        assert((first + second).last() == second.last());
    }
}

/// Two different registers stay different after the same span.
pub proof fn lemma_crc_fold_keeps_registers_apart(a: u16, b: u16, bytes: Seq<u8>)
    requires
        a != b,
    ensures
        crc_fold(a, bytes) != crc_fold(b, bytes),
    decreases bytes.len(),
{
    if bytes.len() > 0 {
        lemma_crc_fold_keeps_registers_apart(a, b, bytes.drop_last());
        lemma_crc_byte_keeps_registers_apart(
            crc_fold(a, bytes.drop_last()),
            crc_fold(b, bytes.drop_last()),
            bytes.last(),
        );
    }
}

/// Changing exactly one byte of a message always changes its checksum.
pub proof fn lemma_crc_detects_one_changed_byte(reg: u16, a: Seq<u8>, b: Seq<u8>, at: int)
    requires
        a.len() == b.len(),
        0 <= at < a.len(),
        a[at] != b[at],
        forall|j: int| 0 <= j < a.len() && j != at ==> a[j] == b[j],
    ensures
        crc_fold(reg, a) != crc_fold(reg, b),
{
    let head = a.subrange(0, at);
    let tail = a.subrange(at + 1, a.len() as int);
    assert(b.subrange(0, at) =~= head);
    assert(b.subrange(at + 1, b.len() as int) =~= tail);
    assert(a =~= (head + seq![a[at]]) + tail);
    assert(b =~= (head + seq![b[at]]) + tail);
    let mid = crc_fold(reg, head);
    lemma_crc_fold_concat(reg, head, seq![a[at]]);
    lemma_crc_fold_concat(reg, head, seq![b[at]]);
    assert(crc_fold(mid, seq![a[at]]) == crc_byte(mid, a[at])) by {
        assert(seq![a[at]].drop_last() =~= Seq::<u8>::empty());
        reveal_with_fuel(crc_fold, 2);
    }
    assert(crc_fold(mid, seq![b[at]]) == crc_byte(mid, b[at])) by {
        assert(seq![b[at]].drop_last() =~= Seq::<u8>::empty());
        reveal_with_fuel(crc_fold, 2);
    }
    lemma_crc_byte_tells_bytes_apart(mid, a[at], b[at]);
    lemma_crc_fold_keeps_registers_apart(crc_byte(mid, a[at]), crc_byte(mid, b[at]), tail);
    lemma_crc_fold_concat(reg, head + seq![a[at]], tail);
    lemma_crc_fold_concat(reg, head + seq![b[at]], tail);
}

/// `crc16::State::<crc16::XMODEM>::calculate`: the CRC-16/XMODEM of a
/// message, which is the register of polynomial 0x1021 that starts at 0,
/// takes the bytes unreflected, and is handed out as it stands.
#[verifier::external_body]
fn xmodem_checksum(message: &[u8]) -> (digest: u16)
    ensures
        digest == crc16_xmodem(message@),
{
    crc16::State::<crc16::XMODEM>::calculate(message)
}

/// A running CRC-16/XMODEM checksum: the spans fed so far, one after the
/// other.
#[derive(Debug, Clone)]
pub struct Crc16 {
    fed: Vec<u8>,
}

impl Crc16 {
    /// The bytes fed so far.
    pub closed spec fn fed(&self) -> Seq<u8> {
        self.fed@
    }

    /// The checksum of the bytes fed so far.
    pub open spec fn digest(&self) -> u16 {
        crc16_xmodem(self.fed())
    }

    /// A fresh checksum, with nothing fed.
    pub fn new() -> (engine: Crc16)
        ensures
            engine.fed() == Seq::<u8>::empty(),
    {
        Crc16 { fed: Vec::new() }
    }

    /// Feeds one more span of bytes.
    pub fn update(&mut self, span: &[u8])
        ensures
            final(self).fed() == old(self).fed() + span@,
            final(self).digest() == crc_fold(old(self).digest(), span@),
    {
        let mut at: usize = 0;
        while at < span.len()
            invariant
                at <= span@.len(),
                self.fed@ == old(self).fed@ + span@.take(at as int),
            decreases span@.len() - at,
        {
            self.fed.push(span[at]);
            assert(span@.take(at + 1) =~= span@.take(at as int).push(span@[at as int]));
            at = at + 1;
        }
        proof {
            assert(span@.take(at as int) =~= span@);
            lemma_crc_fold_concat(0, old(self).fed@, span@);
        }
    }

    /// The checksum of all the spans fed since `new`, in order.
    pub fn finalize(&self) -> (digest: u16)
        ensures
            digest == self.digest(),
    {
        xmodem_checksum(self.fed.as_slice())
    }
}

/// The checksum of `header` followed by `payload`, fed as two spans.
pub fn checksum_of_spans(header: &[u8], payload: &[u8]) -> (digest: u16)
    ensures
        digest == crc16_xmodem(header@ + payload@),
{
    let mut engine = Crc16::new();
    engine.update(header);
    engine.update(payload);
    assert(engine.fed() =~= header@ + payload@);
    engine.finalize()
}

} // verus!
