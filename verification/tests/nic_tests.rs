use std::cell::RefCell;
use std::rc::Rc;

use axhal_core::nic::{
    default_settings, first_frame, net_dev_settings, xmit_config, CapabilityKind, DevError,
    EngineError, InitError, MacAddress, NetBuf, NetDevSettings, NetEngine, PciConfigAccess,
    Settings, E1000E,
};

struct MockEngine {
    mac: [u8; 6],
    link: bool,
    link_after_irq: bool,
    irq_calls: usize,
    init_fails: bool,
    open_fails: bool,
    xmit_fails: bool,
    queue: Vec<Vec<u8>>,
    init_settings: Option<Settings>,
    open_settings: Option<NetDevSettings>,
}

impl MockEngine {
    fn up(mac: [u8; 6]) -> MockEngine {
        MockEngine {
            mac,
            link: true,
            link_after_irq: false,
            irq_calls: 0,
            init_fails: false,
            open_fails: false,
            xmit_fails: false,
            queue: Vec::new(),
            init_settings: None,
            open_settings: None,
        }
    }
}

impl NetEngine for MockEngine {
    fn init(&mut self, settings: Settings) -> Result<(), EngineError> {
        self.init_settings = Some(settings);
        if self.init_fails {
            Err(EngineError)
        } else {
            Ok(())
        }
    }

    fn read_mac_addr(&mut self) -> MacAddress {
        MacAddress(self.mac)
    }

    fn open(&mut self, settings: NetDevSettings) -> Result<(), EngineError> {
        self.open_settings = Some(settings);
        if self.open_fails {
            Err(EngineError)
        } else {
            Ok(())
        }
    }

    fn is_link_up(&mut self) -> bool {
        self.link
    }

    fn irq_handle(&mut self, _count: usize) -> Result<(), EngineError> {
        self.irq_calls += 1;
        if self.link_after_irq {
            self.link = true;
        }
        Ok(())
    }

    fn clean_tx_irq(&mut self) {}

    fn clean_rx_irq(&mut self, batch: usize) -> Vec<Vec<u8>> {
        let take = batch.min(self.queue.len());
        self.queue.drain(..take).collect()
    }

    fn xmit(&mut self, _config: axhal_core::nic::XmitConfig, frame: &[u8]) -> Result<(), EngineError> {
        if self.xmit_fails {
            return Err(EngineError);
        }
        // echo: the transmitted frame comes back as the next received one
        self.queue.push(frame.to_vec());
        Ok(())
    }
}

struct MockPci {
    caps: Vec<CapabilityKind>,
    enabled: Vec<usize>,
}

impl PciConfigAccess for MockPci {
    fn capabilities(&mut self) -> Vec<CapabilityKind> {
        self.caps.clone()
    }

    fn enable_msix(&mut self, index: usize) {
        self.enabled.push(index);
    }
}

fn pci() -> MockPci {
    MockPci {
        caps: vec![CapabilityKind::Other, CapabilityKind::MsiX, CapabilityKind::Other],
        enabled: Vec::new(),
    }
}

const MAC: [u8; 6] = [0x02, 0x11, 0x22, 0x33, 0x44, 0x55];

#[test]
fn transmit_receive_round_trip() {
    // echo engine: a transmitted 64-byte frame of 0xAA comes back intact
    let mut p = pci();
    let mut nic = E1000E::new(MockEngine::up(MAC), &mut p).unwrap();
    let buf = NetBuf::from_vec(vec![0xAAu8; 64]);
    assert_eq!(nic.transmit(buf), Ok(()));
    let rx = nic.receive().unwrap();
    assert_eq!(rx.len(), 64);
    let bytes = rx.into_vec();
    assert_eq!(bytes.len(), 64);
    assert!(bytes.iter().all(|b| *b == 0xAA));
}

#[test]
fn receive_without_frames_is_transient() {
    let mut p = pci();
    let mut nic = E1000E::new(MockEngine::up(MAC), &mut p).unwrap();
    assert_eq!(nic.receive().err(), Some(DevError::Again));
}

#[test]
fn receive_surfaces_one_frame_per_call() {
    // the engine hands over a whole batch at once; the adapter retains the
    // rest and drains it in order, one frame per call, losing nothing
    let mut p = pci();
    let mut e = MockEngine::up(MAC);
    e.queue.push(vec![1, 2, 3]);
    e.queue.push(vec![4, 5]);
    e.queue.push(vec![6]);
    let mut nic = E1000E::new(e, &mut p).unwrap();
    assert_eq!(nic.receive().unwrap().into_vec(), vec![1, 2, 3]);
    assert_eq!(nic.receive().unwrap().into_vec(), vec![4, 5]);
    assert_eq!(nic.receive().unwrap().into_vec(), vec![6]);
    assert_eq!(nic.receive().err(), Some(DevError::Again));
}

#[test]
fn late_frames_queue_behind_the_retained_batch() {
    let mut p = pci();
    let mut e = MockEngine::up(MAC);
    e.queue.push(vec![1]);
    e.queue.push(vec![2]);
    let mut nic = E1000E::new(e, &mut p).unwrap();
    assert_eq!(nic.receive().unwrap().into_vec(), vec![1]);
    // a frame arriving while the batch is drained is surfaced afterwards
    assert_eq!(nic.transmit(NetBuf::from_vec(vec![3])), Ok(()));
    assert_eq!(nic.receive().unwrap().into_vec(), vec![2]);
    assert_eq!(nic.receive().unwrap().into_vec(), vec![3]);
    assert_eq!(nic.receive().err(), Some(DevError::Again));
}

#[test]
fn link_down_poll_services_one_interrupt() {
    // link down until one interrupt service: can_transmit is true exactly
    // after the internal one-shot service, not before
    struct Shared {
        link: bool,
        irq_calls: usize,
        link_checks_before_irq: usize,
    }

    struct ObservedEngine {
        inner: MockEngine,
        shared: Rc<RefCell<Shared>>,
    }

    impl NetEngine for ObservedEngine {
        fn init(&mut self, settings: Settings) -> Result<(), EngineError> {
            self.inner.init(settings)
        }

        fn read_mac_addr(&mut self) -> MacAddress {
            self.inner.read_mac_addr()
        }

        fn open(&mut self, settings: NetDevSettings) -> Result<(), EngineError> {
            self.inner.open(settings)
        }

        fn is_link_up(&mut self) -> bool {
            let mut s = self.shared.borrow_mut();
            if s.irq_calls == 0 {
                s.link_checks_before_irq += 1;
            }
            s.link
        }

        fn irq_handle(&mut self, _count: usize) -> Result<(), EngineError> {
            let mut s = self.shared.borrow_mut();
            s.irq_calls += 1;
            s.link = true;
            Ok(())
        }

        fn clean_tx_irq(&mut self) {}

        fn clean_rx_irq(&mut self, batch: usize) -> Vec<Vec<u8>> {
            self.inner.clean_rx_irq(batch)
        }

        fn xmit(
            &mut self,
            config: axhal_core::nic::XmitConfig,
            frame: &[u8],
        ) -> Result<(), EngineError> {
            self.inner.xmit(config, frame)
        }
    }

    let shared = Rc::new(RefCell::new(Shared {
        link: false,
        irq_calls: 0,
        link_checks_before_irq: 0,
    }));
    let engine = ObservedEngine { inner: MockEngine::up(MAC), shared: shared.clone() };
    let mut p = pci();
    let mut nic = E1000E::new(engine, &mut p).unwrap();
    assert!(nic.can_transmit());
    let s = shared.borrow();
    // the link was found down once before the service, serviced exactly once,
    // and found up on the re-check
    assert_eq!(s.link_checks_before_irq, 1);
    assert_eq!(s.irq_calls, 1);
    assert!(s.link);
}

#[test]
fn can_receive_polls_the_same_way() {
    let mut p = pci();
    let mut e = MockEngine::up(MAC);
    e.link = false;
    e.link_after_irq = true;
    let mut nic = E1000E::new(e, &mut p).unwrap();
    assert!(nic.can_receive());
}

#[test]
fn link_stays_down_when_service_does_not_help() {
    let mut p = pci();
    let mut e = MockEngine::up(MAC);
    e.link = false;
    let mut nic = E1000E::new(e, &mut p).unwrap();
    assert!(!nic.can_transmit());
    assert!(!nic.can_receive());
}

#[test]
fn in_flight_buffers_do_not_overlap() {
    // two received buffers never share memory, and recycling consumes them
    let mut p = pci();
    let mut e = MockEngine::up(MAC);
    e.queue.push(vec![7u8; 32]);
    e.queue.push(vec![9u8; 32]);
    let mut nic = E1000E::new(e, &mut p).unwrap();
    let b1 = nic.receive().unwrap();
    let b2 = nic.receive().unwrap();
    let v1 = b1.into_vec();
    let v2 = b2.into_vec();
    let (s1, s2) = (v1.as_ptr() as usize, v2.as_ptr() as usize);
    assert!(s1 + v1.len() <= s2 || s2 + v2.len() <= s1);
    assert!(v1.iter().all(|b| *b == 7));
    assert!(v2.iter().all(|b| *b == 9));
    assert_eq!(nic.recycle_rx_buffer(NetBuf::from_vec(v1)), Ok(()));
    assert_eq!(nic.recycle_rx_buffer(NetBuf::from_vec(v2)), Ok(()));
}

#[test]
fn transmit_busy_engine_is_transient() {
    let mut p = pci();
    let mut e = MockEngine::up(MAC);
    e.xmit_fails = true;
    let mut nic = E1000E::new(e, &mut p).unwrap();
    let buf = NetBuf::from_vec(vec![1, 2, 3]);
    assert_eq!(nic.transmit(buf), Err(DevError::Again));
}

#[test]
fn construction_failures_are_typed() {
    let mut p = pci();
    let mut e = MockEngine::up(MAC);
    e.init_fails = true;
    assert_eq!(E1000E::new(e, &mut p).err(), Some(InitError::Engine));
    let mut e2 = MockEngine::up(MAC);
    e2.open_fails = true;
    assert_eq!(E1000E::new(e2, &mut p).err(), Some(InitError::Open));
}

#[test]
fn construction_enables_every_msix_capability() {
    let mut p = pci();
    let _nic = E1000E::new(MockEngine::up(MAC), &mut p).unwrap();
    assert_eq!(p.enabled, vec![1]);
}

#[test]
fn adapter_getters() {
    let mut p = pci();
    let mut nic = E1000E::new(MockEngine::up(MAC), &mut p).unwrap();
    assert_eq!(nic.mac_address().0, MAC);
    assert_eq!(nic.device_name(), "E1000 ");
    assert!(matches!(nic.device_type(), axhal_core::nic::DeviceType::Net));
    assert_eq!(nic.rx_queue_size(), 256);
    assert_eq!(nic.tx_queue_size(), 256);
    assert_eq!(nic.recycle_tx_buffers(), Ok(()));
}

#[test]
fn alloc_tx_buffer_is_sized_and_zeroed() {
    let mut p = pci();
    let mut nic = E1000E::new(MockEngine::up(MAC), &mut p).unwrap();
    let buf = nic.alloc_tx_buffer(48).unwrap();
    assert_eq!(buf.len(), 48);
    assert!(buf.as_slice().iter().all(|b| *b == 0));
}

#[test]
fn first_frame_takes_the_head_and_retains_the_rest() {
    let (buf, rest) = first_frame(vec![vec![1, 2, 3], vec![4]]).unwrap();
    assert_eq!(buf.into_vec(), vec![1, 2, 3]);
    assert_eq!(rest, vec![vec![4]]);
    assert_eq!(first_frame(Vec::new()).err(), Some(DevError::Again));
}

#[test]
fn fixed_settings_and_descriptor() {
    let s = default_settings();
    assert!(s.enable_msi);
    assert_eq!(s.mtu, 1500);
    let mac = MacAddress(MAC);
    let nd = net_dev_settings(mac);
    assert!(!nd.iff_promisc);
    assert!(!nd.iff_allmulti);
    assert_eq!(nd.mc_list.0, MAC);
    assert_eq!(nd.mc_list_len, 6);
    assert_eq!(nd.uc_list.0, MAC);
    assert_eq!(nd.uc_list_len, 6);
    let x = xmit_config();
    assert_eq!(x.timestamp, 0);
    assert_eq!(x.segs, 1);
    assert!(x.ipv4);
    assert!(x.no_fcs);
    assert!(!x.vlan_tag_present);
}

#[test]
fn netbuf_set_writes_through() {
    let mut buf = NetBuf::zeroed(4);
    buf.set(2, 0x7F);
    assert_eq!(buf.into_vec(), vec![0, 0, 0x7F, 0]);
}
