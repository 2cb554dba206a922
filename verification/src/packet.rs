//! Buffers that hold one HCI packet each.

use vstd::prelude::*;

use crate::consts::BT_HCI_MTU;

verus! {

/// Represents a packet of size MTU: an HCI type byte and the packet itself in
/// the first `len` bytes of `buf`.
#[derive(Clone, Copy)]
pub struct BtPacketBuf {
    pub len: usize,
    pub buf: [u8; BT_HCI_MTU],
}

impl View for BtPacketBuf {
    type V = Seq<u8>;

    /// The bytes of the packet.
    open spec fn view(&self) -> Seq<u8> {
        self.buf@.take(self.len as int)
    }
}

impl BtPacketBuf {
    /// The length does not reach past the buffer.
    pub open spec fn wf(self) -> bool {
        self.len <= BT_HCI_MTU
    }

    /// Create a new packet buffer.
    pub fn new() -> (packet: Self)
        ensures
            packet.len == 0,
            packet.buf@ == Seq::new(BT_HCI_MTU as nat, |i: int| 0u8),
            packet.wf(),
            packet@ == Seq::<u8>::empty(),
    {
        let packet: BtPacketBuf = BtPacketBuf { len: 0, buf: [0; BT_HCI_MTU] };
        assert(packet.buf@ =~= Seq::new(BT_HCI_MTU as nat, |i: int| 0u8));
        packet
    }

    /// Puts the bytes of one packet into the buffer; what lies behind them stays.
    pub fn store(&mut self, data: &[u8])
        requires
            data@.len() <= BT_HCI_MTU,
        ensures
            final(self)@ == data@,
            final(self).len == data@.len(),
            final(self).wf(),
            final(self).buf@ == data@ + old(self).buf@.skip(data@.len() as int),
    {
        let n: usize = data.len();
        let mut i: usize = 0;
        while i < n
            invariant
                i <= n,
                n == data@.len(),
                n <= BT_HCI_MTU,
                forall|j: int| 0 <= j < i ==> self.buf@[j] == data@[j],
                forall|j: int| i <= j < BT_HCI_MTU ==> self.buf@[j] == old(self).buf@[j],
            decreases n - i,
        {
            self.buf[i] = data[i];
            i = i + 1;
        }
        self.len = n;
        assert(self.buf@ =~= data@ + old(self).buf@.skip(data@.len() as int));
        assert(self@ =~= data@);
    }

    /// Ends a serialisation into the buffer that left `unused` bytes at its end.
    pub fn finish(&mut self, unused: usize)
        requires
            unused <= BT_HCI_MTU,
        ensures
            final(self).len == BT_HCI_MTU - unused,
            final(self).buf == old(self).buf,
            final(self).wf(),
            final(self)@ == old(self).buf@.take(BT_HCI_MTU - unused),
    {
        self.len = BT_HCI_MTU - unused;
    }
}

} // verus!
