//! Network-device adapter over a vendor driver engine.
//!
//! The engine (the register-level chip driver) is opaque: the adapter drives
//! it through the [`NetEngine`] trait that the embedding kernel implements,
//! and exposes the uniform network-driver contract upward — link polling,
//! fixed queue sizing, transmit, one-frame-per-call receive, and buffer
//! recycling. Packet memory crosses the boundary as [`NetBuf`], an owned
//! buffer that is moved, never aliased: transmit consumes the caller's buffer,
//! receive produces one the caller must hand back exactly once.

use vstd::prelude::*;

verus! {

/// Descriptor count of each hardware queue; fixed, not negotiated.
pub const QUEUE_SIZE: usize = 256;

/// Most frames asked of the engine per receive call; only the first one is
/// surfaced, the caller drains a backlog by calling again.
pub const RX_BATCH: usize = 64;

/// A transient device condition: hardware not ready, queue busy, link down or
/// no packet available. The caller polls and retries; not an error in the
/// exceptional sense.
#[derive(Clone, Copy, PartialEq, Eq, Structural, Debug)]
pub enum DevError {
    Again,
}

/// A failure the engine reports for one call.
#[derive(Clone, Copy, PartialEq, Eq, Structural, Debug)]
pub struct EngineError;

/// Adapter construction failure, surfaced as a typed result so that a faulty
/// device can be skipped during enumeration instead of halting the subsystem.
#[derive(Clone, Copy, PartialEq, Eq, Structural, Debug)]
pub enum InitError {
    /// The engine could not be brought up with the fixed settings.
    Engine,
    /// The engine refused to open with the negotiated device settings.
    Open,
}

/// What kind of device a driver exposes.
#[derive(Clone, Copy, PartialEq, Eq, Structural, Debug)]
pub enum DeviceType {
    Net,
    Block,
    Char,
    Display,
}

/// A negotiated MAC address, immutable after construction.
#[derive(Clone, Copy, Debug)]
pub struct MacAddress(pub [u8; 6]);

/// Fixed settings the engine is created with.
#[derive(Clone, Copy, PartialEq, Eq, Structural, Debug)]
pub struct Settings {
    pub enable_msi: bool,
    pub mtu: usize,
}

/// Settings the device is opened with.
#[derive(Clone, Copy, Debug)]
pub struct NetDevSettings {
    pub iff_promisc: bool,
    pub iff_allmulti: bool,
    pub mc_list: MacAddress,
    pub mc_list_len: usize,
    pub uc_list: MacAddress,
    pub uc_list_len: usize,
}

/// The per-call transmission descriptor.
#[derive(Clone, Copy, PartialEq, Eq, Structural, Debug)]
pub struct XmitConfig {
    pub timestamp: u64,
    pub segs: usize,
    pub ipv4: bool,
    pub no_fcs: bool,
    pub vlan_tag_present: bool,
}

/// The settings every engine is created with: MSI on, standard MTU.
pub fn default_settings() -> (r: Settings)
    ensures
        r == (Settings { enable_msi: true, mtu: 1500 }),
{
    Settings { enable_msi: true, mtu: 1500 }
}

/// The settings the device is opened with: no promiscuity, no all-multicast,
/// and the negotiated MAC as both multicast and unicast list of length six.
pub fn net_dev_settings(mac: MacAddress) -> (r: NetDevSettings)
    ensures
        !r.iff_promisc,
        !r.iff_allmulti,
        r.mc_list == mac,
        r.mc_list_len == 6,
        r.uc_list == mac,
        r.uc_list_len == 6,
{
    NetDevSettings {
        iff_promisc: false,
        iff_allmulti: false,
        mc_list: mac,
        mc_list_len: 6,
        uc_list: mac,
        uc_list_len: 6,
    }
}

/// The fixed per-call transmission descriptor: one segment, IPv4, no
/// frame-check sequence appended, no VLAN tag.
pub fn xmit_config() -> (r: XmitConfig)
    ensures
        r == (XmitConfig {
            timestamp: 0,
            segs: 1,
            ipv4: true,
            no_fcs: true,
            vlan_tag_present: false,
        }),
{
    XmitConfig { timestamp: 0, segs: 1, ipv4: true, no_fcs: true, vlan_tag_present: false }
}

/// One Ethernet frame as an owned buffer: constructed from an allocation,
/// consumed exactly once — moving it is the only way to share it, so no two
/// live buffers ever overlap.
pub struct NetBuf {
    data: Vec<u8>,
}

impl View for NetBuf {
    type V = Seq<u8>;

    closed spec fn view(&self) -> Seq<u8> {
        self.data@
    }
}

impl NetBuf {
    /// Takes ownership of `data` as one frame.
    pub fn from_vec(data: Vec<u8>) -> (r: NetBuf)
        ensures
            r@ == data@,
    {
        NetBuf { data }
    }

    /// A zero-filled frame of `len` bytes.
    pub fn zeroed(len: usize) -> (r: NetBuf)
        ensures
            r@.len() == len,
            forall|i: int| 0 <= i < len ==> r@[i] == 0u8,
    {
        let mut data: Vec<u8> = Vec::new();
        while data.len() < len
            invariant
                data@.len() <= len,
                forall|i: int| 0 <= i < data@.len() ==> data@[i] == 0u8,
            decreases len - data@.len(),
        {
            data.push(0u8);
        }
        NetBuf { data }
    }

    pub fn len(&self) -> (r: usize)
        ensures
            r == self@.len(),
    {
        self.data.len()
    }

    pub fn as_slice(&self) -> (r: &[u8])
        ensures
            r@ == self@,
    {
        self.data.as_slice()
    }

    /// Writes one byte of the frame.
    pub fn set(&mut self, i: usize, b: u8)
        requires
            i < old(self)@.len(),
        ensures
            final(self)@ == old(self)@.update(i as int, b),
    {
        self.data.set(i, b);
    }

    /// Gives the frame memory back to the caller, consuming the buffer.
    pub fn into_vec(self) -> (r: Vec<u8>)
        ensures
            r@ == self@,
    {
        self.data
    }
}

/// The opaque vendor engine, driven through a narrow interface. Implemented
/// by the embedding kernel over the register-level chip driver; nothing is
/// assumed of it here, so everything proved of the adapter holds for every
/// engine.
pub trait NetEngine {
    /// Brings the chip up with the fixed settings.
    fn init(&mut self, settings: Settings) -> Result<(), EngineError>;

    /// The MAC address the chip negotiated.
    fn read_mac_addr(&mut self) -> MacAddress;

    /// Opens the device with the negotiated settings.
    fn open(&mut self, settings: NetDevSettings) -> Result<(), EngineError>;

    /// Non-blocking link-status check.
    fn is_link_up(&mut self) -> bool;

    /// Services up to `count` rounds of pending interrupts.
    fn irq_handle(&mut self, count: usize) -> Result<(), EngineError>;

    /// Frees the resources of completed transmissions.
    fn clean_tx_irq(&mut self);

    /// Up to `batch` received frames, in the order the hardware completed
    /// them; frames not returned stay with the engine for the next call.
    fn clean_rx_irq(&mut self, batch: usize) -> Vec<Vec<u8>>;

    /// Hands one outgoing frame to the hardware.
    fn xmit(&mut self, config: XmitConfig, frame: &[u8]) -> Result<(), EngineError>;
}

/// PCI configuration access of the endpoint the engine sits on; implemented by
/// the embedding kernel's PCI layer.
pub trait PciConfigAccess {
    /// The capability kinds of the endpoint, in configuration-space order.
    fn capabilities(&mut self) -> Vec<CapabilityKind>;

    /// Enables the MSI-X capability at position `index` of the list.
    fn enable_msix(&mut self, index: usize);
}

/// The one capability kind the adapter acts on, against everything else.
#[derive(Clone, Copy, PartialEq, Eq, Structural, Debug)]
pub enum CapabilityKind {
    MsiX,
    Other,
}

/// The frame contents of a sequence of raw frames.
pub open spec fn frames_of(v: Seq<Vec<u8>>) -> Seq<Seq<u8>> {
    v.map_values(|f: Vec<u8>| f@)
}

/// Taking the head frame leaves exactly the tail of the frame contents.
pub proof fn lemma_frames_drop_first(s: Seq<Vec<u8>>)
    requires
        s.len() > 0,
    ensures
        frames_of(s.remove(0)) == frames_of(s).drop_first(),
{
    assert(frames_of(s.remove(0)) =~= frames_of(s).drop_first());
}

/// The choice `receive` makes over one engine batch: the first frame becomes
/// the caller's owned buffer and the rest are retained, in order, for later
/// calls; an empty batch is the transient no-packet answer.
pub fn first_frame(batch: Vec<Vec<u8>>) -> (r: Result<(NetBuf, Vec<Vec<u8>>), DevError>)
    ensures
        batch@.len() > 0 ==> ({
            let (buf, rest) = r->Ok_0;
            &&& r is Ok
            &&& buf@ == batch@[0]@
            &&& rest@ == batch@.drop_first()
        }),
        batch@.len() == 0 ==> r == Err::<(NetBuf, Vec<Vec<u8>>), DevError>(DevError::Again),
{
    let mut b = batch;
    if b.len() >= 1 {
        let first = b.remove(0);
        proof {
            assert(b@ =~= batch@.drop_first());
        }
        Ok((NetBuf::from_vec(first), b))
    } else {
        Err(DevError::Again)
    }
}

/// The admission decision of one link poll: admitted when the link was up
/// before the (at most one) interrupt service, or up on the re-check after it.
pub fn link_up_after_one_service(up_before: bool, up_after: bool) -> (r: bool)
    ensures
        r == (up_before || up_after),
{
    up_before || up_after
}

/// How the engine's answer to one transmit is surfaced: acceptance is success;
/// a reported failure is the transient queue-busy answer, to be polled and
/// retried by the caller.
pub fn xmit_outcome(engine_result: Result<(), EngineError>) -> (r: Result<(), DevError>)
    ensures
        (r is Ok) <==> (engine_result is Ok),
        r is Err ==> r->Err_0 == DevError::Again,
{
    match engine_result {
        Ok(()) => Ok(()),
        Err(_) => Err(DevError::Again),
    }
}

/// The positions, in configuration-space order, of the MSI-X capabilities in
/// a capability list: exactly the indices holding `MsiX`, each once,
/// ascending.
#[verifier::loop_isolation(false)]
pub fn msix_indices(caps: &Vec<CapabilityKind>) -> (r: Vec<usize>)
    ensures
        forall|k: int|
            0 <= k < r@.len() ==> #[trigger] r@[k] < caps@.len() && caps@[r@[k] as int]
                == CapabilityKind::MsiX,
        forall|i: int|
            0 <= i < caps@.len() && #[trigger] caps@[i] == CapabilityKind::MsiX ==> exists|k: int|
                0 <= k < r@.len() && #[trigger] r@[k] == i,
        forall|k1: int, k2: int|
            #![trigger r@[k1], r@[k2]]
            0 <= k1 < k2 < r@.len() ==> r@[k1] < r@[k2],
{
    let mut out: Vec<usize> = Vec::new();
    let n = caps.len();
    let mut i: usize = 0;
    while i < n
        invariant
            i <= n,
            forall|k: int|
                0 <= k < out@.len() ==> #[trigger] out@[k] < i && caps@[out@[k] as int]
                    == CapabilityKind::MsiX,
            forall|j: int|
                0 <= j < i && #[trigger] caps@[j] == CapabilityKind::MsiX ==> exists|k: int|
                    0 <= k < out@.len() && #[trigger] out@[k] == j,
            forall|k1: int, k2: int|
                #![trigger out@[k1], out@[k2]]
                0 <= k1 < k2 < out@.len() ==> out@[k1] < out@[k2],
        decreases n - i,
    {
        let ghost pre_out = out@;
        if caps[i] == CapabilityKind::MsiX {
            out.push(i);
        }
        proof {
            assert forall|j: int|
                0 <= j < i as int + 1 && #[trigger] caps@[j]
                    == CapabilityKind::MsiX implies exists|k: int|
                0 <= k < out@.len() && #[trigger] out@[k] == j by {
                if j == i as int {
                    assert(out@[out@.len() - 1] == i);
                } else {
                    let k0 = choose|k: int| 0 <= k < pre_out.len() && #[trigger] pre_out[k] == j;
                    assert(out@[k0] == j);
                }
            }
        }
        i += 1;
    }
    out
}

/// The adapter: one engine behind the uniform network-driver contract, the
/// MAC address cached at construction, and the frames of a fetched batch not
/// yet surfaced, retained in order for later receive calls.
pub struct E1000E<E: NetEngine> {
    engine: E,
    mac: MacAddress,
    pending: Vec<Vec<u8>>,
}

impl<E: NetEngine> E1000E<E> {
    /// The MAC address cached at construction.
    pub closed spec fn mac_spec(self) -> MacAddress {
        self.mac
    }

    /// The contents of the frames fetched from the engine but not yet
    /// surfaced, oldest first.
    pub closed spec fn pending_frames(self) -> Seq<Seq<u8>> {
        frames_of(self.pending@)
    }

    /// The Ready adapter over a brought-up engine and the MAC address it
    /// negotiated: exactly that MAC is cached (immutable afterwards) and no
    /// frame is pending.
    pub fn assemble(engine: E, mac: MacAddress) -> (r: E1000E<E>)
        ensures
            r.mac_spec() == mac,
            r.pending_frames() == Seq::<Seq<u8>>::empty(),
    {
        let pending: Vec<Vec<u8>> = Vec::new();
        proof {
            assert(frames_of(pending@) =~= Seq::<Seq<u8>>::empty());
        }
        E1000E { engine, mac, pending }
    }

    /// Construction: engine brought up with the fixed settings
    /// (`default_settings`), MAC read, device opened with the negotiated
    /// settings (`net_dev_settings` of that MAC), and exactly the MSI-X
    /// capability positions (`msix_indices`) enabled — each named step carries
    /// its own exact contract, and `assemble` ties the cached MAC to the one
    /// the engine reported. Any failure surfaces as a typed result so the
    /// device can be skipped during probing.
    #[verifier::loop_isolation(false)]
    pub fn new<P: PciConfigAccess>(engine: E, pci: &mut P) -> (r: Result<E1000E<E>, InitError>)
        ensures
            r is Err ==> r->Err_0 == InitError::Engine || r->Err_0 == InitError::Open,
            r is Ok ==> r->Ok_0.pending_frames() == Seq::<Seq<u8>>::empty(),
    {
        let mut engine = engine;
        if engine.init(default_settings()).is_err() {
            return Err(InitError::Engine);
        }
        let mac = engine.read_mac_addr();
        if engine.open(net_dev_settings(mac)).is_err() {
            return Err(InitError::Open);
        }
        let caps = pci.capabilities();
        let indices = msix_indices(&caps);
        let n = indices.len();
        let mut i: usize = 0;
        while i < n
            invariant
                i <= n,
                n == indices@.len(),
            decreases n - i,
        {
            pci.enable_msix(indices[i]);
            i += 1;
        }
        Ok(E1000E::assemble(engine, mac))
    }

    /// The cached MAC; no failure mode.
    pub fn mac_address(&self) -> (r: MacAddress)
        ensures
            r == self.mac_spec(),
    {
        self.mac
    }

    pub fn device_name(&self) -> (r: &'static str)
        ensures
            r@ == "E1000 "@,
    {
        "E1000 "
    }

    pub fn device_type(&self) -> (r: DeviceType)
        ensures
            r == DeviceType::Net,
    {
        DeviceType::Net
    }

    pub fn rx_queue_size(&self) -> (r: usize)
        ensures
            r == QUEUE_SIZE,
    {
        QUEUE_SIZE
    }

    pub fn tx_queue_size(&self) -> (r: usize)
        ensures
            r == QUEUE_SIZE,
    {
        QUEUE_SIZE
    }

    /// Link-up poll with one opportunistic interrupt service: when the link is
    /// down, one round of pending interrupts is serviced and the link checked
    /// once more — a poll with a side effect, never blocking. The admission
    /// decision over the two checks is `link_up_after_one_service`, with its
    /// exact contract; the cached MAC and the pending frames are untouched.
    pub fn can_transmit(&mut self) -> (r: bool)
        ensures
            final(self).mac_spec() == old(self).mac_spec(),
            final(self).pending_frames() == old(self).pending_frames(),
    {
        let up_before = self.engine.is_link_up();
        let up_after = if up_before {
            up_before
        } else {
            let _ = self.engine.irq_handle(1);
            self.engine.is_link_up()
        };
        link_up_after_one_service(up_before, up_after)
    }

    /// Same admission check as `can_transmit`, for the receive side.
    pub fn can_receive(&mut self) -> (r: bool)
        ensures
            final(self).mac_spec() == old(self).mac_spec(),
            final(self).pending_frames() == old(self).pending_frames(),
    {
        let up_before = self.engine.is_link_up();
        let up_after = if up_before {
            up_before
        } else {
            let _ = self.engine.irq_handle(1);
            self.engine.is_link_up()
        };
        link_up_after_one_service(up_before, up_after)
    }

    /// Obtains `size` bytes of ordinary (non-DMA-pool) memory for an outgoing
    /// frame, zero-filled.
    pub fn alloc_tx_buffer(&mut self, size: usize) -> (r: Result<NetBuf, DevError>)
        ensures
            r is Ok,
            r->Ok_0@.len() == size,
    {
        Ok(NetBuf::zeroed(size))
    }

    /// Hands one outgoing frame to the engine under the fixed transmission
    /// descriptor (`xmit_config`, with its exact contract). The buffer is
    /// consumed: ownership moves into the call. The engine's answer is
    /// surfaced by `xmit_outcome`: success tracks acceptance, a refusal is the
    /// transient queue-busy answer the caller polls and retries on.
    pub fn transmit(&mut self, frame: NetBuf) -> (r: Result<(), DevError>)
        ensures
            r is Err ==> r->Err_0 == DevError::Again,
            final(self).mac_spec() == old(self).mac_spec(),
            final(self).pending_frames() == old(self).pending_frames(),
    {
        let config = xmit_config();
        let accepted = self.engine.xmit(config, frame.as_slice());
        xmit_outcome(accepted)
    }

    /// Services completed transmissions, then surfaces one frame: the oldest
    /// retained frame if a fetched batch is still being drained, else the
    /// head of a fresh batch of up to `RX_BATCH` frames asked of the engine,
    /// whose remaining frames are retained for later calls. One frame per
    /// call, in the order the engine reported them, with no loss and no
    /// duplication; with nothing retained and nothing fetched, the transient
    /// answer is returned.
    pub fn receive(&mut self) -> (r: Result<NetBuf, DevError>)
        ensures
            r is Err ==> r->Err_0 == DevError::Again,
            final(self).mac_spec() == old(self).mac_spec(),
            // a retained backlog is drained first, oldest frame first
            old(self).pending_frames().len() > 0 ==> r is Ok && r->Ok_0@ == old(
                self,
            ).pending_frames()[0] && final(self).pending_frames() == old(
                self,
            ).pending_frames().drop_first(),
            // the transient answer leaves nothing retained behind
            r is Err ==> final(self).pending_frames() == old(self).pending_frames()
                && old(self).pending_frames().len() == 0,
    {
        self.engine.clean_tx_irq();
        if self.pending.len() > 0 {
            let first = self.pending.remove(0);
            proof {
                lemma_frames_drop_first(old(self).pending@);
            }
            return Ok(NetBuf::from_vec(first));
        }
        let batch = self.engine.clean_rx_irq(RX_BATCH);
        match first_frame(batch) {
            Ok((buf, rest)) => {
                self.pending = rest;
                Ok(buf)
            },
            Err(e) => Err(e),
        }
    }

    /// Releases a buffer previously returned by `receive` back to the general
    /// allocator. Must be called exactly once per received buffer; the move
    /// consumes it, so a second release of the same buffer cannot be written.
    pub fn recycle_rx_buffer(&mut self, rx_buf: NetBuf) -> (r: Result<(), DevError>)
        ensures
            r is Ok,
            *final(self) == *old(self),
    {
        let _ = rx_buf.into_vec();
        Ok(())
    }

    /// Reserved hook for deferred freeing of transmitted buffers; nothing to
    /// do in this design: the adapter is left exactly as it was.
    pub fn recycle_tx_buffers(&mut self) -> (r: Result<(), DevError>)
        ensures
            r is Ok,
            *final(self) == *old(self),
    {
        Ok(())
    }
}

} // verus!
