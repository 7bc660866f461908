//! Block devices: reading 512-byte sectors.
use vstd::prelude::*;

verus! {

/// Size of a sector in bytes.
pub const SECTOR_SIZE: usize = 512;

#[derive(Debug, PartialEq, Eq, Structural)]
pub enum Error {
    VirtioMagicInvalid,
    VirtioVersionInvalid,
    VirtioUnsupportedDevice,
    VirtioLegacyOnly,
    VirtioFeatureNegotiationFailed,
    VirtioQueueTooSmall,
    BlockIOError,
    BlockNotSupported,
}

/// A device that reads 512-byte sectors.
pub trait SectorRead {
    /// The content of sector `sector` of the device. A device that does not
    /// define it keeps the empty default, which no 512-byte read matches: the
    /// contract of `read` then says nothing of what a read gives back.
    closed spec fn sector(&self, sector: u64) -> Seq<u8> {
        Seq::empty()
    }

    /// Whether reading sector `sector` succeeds. A device that does not
    /// define it keeps the default, false: the contract of `read` then leaves
    /// open whether a read fails.
    closed spec fn reads(&self, sector: u64) -> bool {
        false
    }

    /// Read a single sector (512 bytes) from the block device. `data` must be
    /// exactly 512 bytes long.
    fn read(&self, sector: u64, data: &mut [u8]) -> (r: Result<(), Error>)
        requires
            old(data)@.len() == SECTOR_SIZE,
        ensures
            final(data)@.len() == SECTOR_SIZE,
            r is Ok && self.sector(sector).len() == SECTOR_SIZE ==> final(data)@ == self.sector(sector),
            self.reads(sector) ==> r is Ok,
    ;
}

/// Whether the device's `sector` gives every sector its 512 bytes: whether
/// the contract of its `read` states what a read gives back.
pub open spec fn sized<D: SectorRead>(d: &D) -> bool {
    forall|s: u64| #[trigger] d.sector(s).len() == SECTOR_SIZE
}

/// A zeroed buffer of one sector.
pub fn sector_buf() -> (v: Vec<u8>)
    ensures
        v@.len() == SECTOR_SIZE,
        forall|i: int| 0 <= i < SECTOR_SIZE ==> v@[i] == 0,
{
    let mut v: Vec<u8> = Vec::new();
    while v.len() < SECTOR_SIZE
        invariant
            v@.len() <= SECTOR_SIZE,
            forall|i: int| 0 <= i < v@.len() ==> v@[i] == 0,
        decreases SECTOR_SIZE - v@.len(),
    {
        v.push(0);
    }
    v
}

/// The registers of a virtio device, as the block driver uses them.
pub trait VirtioTransport {
    /// What checking the device for `device_type` answers. A transport that
    /// does not define it, nor the other answers below, keeps the default,
    /// which states none: the contracts of its reads then say nothing of
    /// what they give back.
    closed spec fn device_check(&self, device_type: u32) -> Option<Result<(), Error>> {
        None
    }

    /// The features that the device offers.
    closed spec fn offered_features(&self) -> Option<u64> {
        None
    }

    /// The device status that the driver reads once it has set
    /// FEATURES_OK.
    closed spec fn negotiated_status(&self) -> Option<u32> {
        None
    }

    /// The largest size of queue 0.
    closed spec fn queue_max_size(&self) -> Option<u16> {
        None
    }

    fn check_device(&self, device_type: u32) -> (r: Result<(), Error>)
        ensures
            self.device_check(device_type) matches Some(x) ==> r == x,
    ;
    fn get_status(&self) -> (r: u32)
        ensures
            self.negotiated_status() matches Some(s) ==> r == s,
    ;
    fn set_status(&self, status: u32);
    fn add_status(&self, status: u32);
    fn reset(&self);
    fn get_features(&self) -> (r: u64)
        ensures
            self.offered_features() matches Some(x) ==> r == x,
    ;
    fn set_features(&self, features: u64);
    fn set_queue(&self, queue: u16);
    fn get_queue_max_size(&self) -> (r: u16)
        ensures
            self.queue_max_size() matches Some(x) ==> r == x,
    ;
    fn set_queue_size(&self, queue_size: u16);
    fn set_descriptors_address(&self, address: u64);
    fn set_avail_ring(&self, address: u64);
    fn set_used_ring(&self, address: u64);
    fn set_queue_enable(&self);
    fn notify_queue(&self, queue: u16);
    /// Reads the 32-bit word at `offset` of the device's configuration
    /// space.
    fn read_device_config(&self, offset: u64) -> u32;
}

/// The entries of the request queue.
pub const QUEUE_SIZE: u16 = 16;
/// The virtio device type of a block device.
pub const VIRTIO_SUBSYSTEM_BLOCK: u32 = 0x2;
/// The feature bit of virtio 1.0 devices.
pub const VIRTIO_F_VERSION_1: u64 = 1 << 32;
pub const VIRTIO_STATUS_RESET: u32 = 0;
pub const VIRTIO_STATUS_ACKNOWLEDGE: u32 = 1;
pub const VIRTIO_STATUS_DRIVER: u32 = 2;
pub const VIRTIO_STATUS_FEATURES_OK: u32 = 8;
pub const VIRTIO_STATUS_DRIVER_OK: u32 = 4;
pub const VIRTIO_STATUS_FAILED: u32 = 128;

/// Where the parts of the request queue are in memory.
#[derive(Clone, Copy, Debug, PartialEq, Eq, Structural)]
pub struct QueueAddresses {
    pub descriptors: u64,
    pub avail: u64,
    pub used: u64,
}

/// What bringing a block device up answers, given what checking it, its
/// offered features, its status after feature negotiation and the largest
/// size of its queue 0 answer.
pub open spec fn init_outcome(check: Result<(), Error>, features: u64, status: u32, max_queue: u16) -> Result<(), Error> {
    match check {
        Err(e) => Err(e),
        Ok(()) => if features & VIRTIO_F_VERSION_1 != VIRTIO_F_VERSION_1 {
            Err(Error::VirtioLegacyOnly)
        } else if status & VIRTIO_STATUS_FEATURES_OK != VIRTIO_STATUS_FEATURES_OK {
            Err(Error::VirtioFeatureNegotiationFailed)
        } else if max_queue < QUEUE_SIZE {
            Err(Error::VirtioQueueTooSmall)
        } else {
            Ok(())
        },
    }
}

/// A virtio block device behind its transport, with its request queue at
/// `queue`.
pub struct VirtioMMIOBlockDevice<T: VirtioTransport> {
    pub transport: T,
    pub queue: QueueAddresses,
}

impl<T: VirtioTransport> VirtioMMIOBlockDevice<T> {
    /// A device behind `transport`, whose request queue is at `queue`.
    pub fn new(transport: T, queue: QueueAddresses) -> (d: VirtioMMIOBlockDevice<T>)
        ensures
            d.transport == transport,
            d.queue == queue,
    {
        VirtioMMIOBlockDevice { transport, queue }
    }

    /// The capacity of the device in sectors, from the first two words of
    /// its configuration space; what the device answers is not stated.
    pub fn get_capacity(&self) -> (r: u64) {
        let low = self.transport.read_device_config(0);
        let high = self.transport.read_device_config(4);
        let r = (high as u64) * 0x1_0000_0000 + low as u64;
        r
    }

    /// Resets the device.
    pub fn reset(&self) {
        self.transport.reset()
    }

    /// Brings the device up: checks it is a block device, acknowledges it,
    /// negotiates features (virtio 1.0 is needed), programs queue 0 with 16
    /// entries at the queue's addresses and reports the driver ready; a
    /// failed step marks the device FAILED.
    pub fn init(&self) -> (r: Result<(), Error>)
        ensures
            self.transport.device_check(VIRTIO_SUBSYSTEM_BLOCK) matches Some(Err(e)) ==> r == Err::<(), Error>(e),
            ({
                let t = self.transport;
                t.device_check(VIRTIO_SUBSYSTEM_BLOCK) matches Some(check) ==> (t.offered_features() matches Some(
                    features,
                ) ==> (t.negotiated_status() matches Some(status) ==> (t.queue_max_size() matches Some(max_queue)
                    ==> r == init_outcome(check, features, status, max_queue))))
            }),
    {
        match self.transport.check_device(VIRTIO_SUBSYSTEM_BLOCK) {
            Ok(()) => {},
            Err(e) => {
                return Err(e);
            },
        }
        self.transport.set_status(VIRTIO_STATUS_RESET);
        self.transport.add_status(VIRTIO_STATUS_ACKNOWLEDGE);
        self.transport.add_status(VIRTIO_STATUS_DRIVER);
        let device_features = self.transport.get_features();
        if device_features & VIRTIO_F_VERSION_1 != VIRTIO_F_VERSION_1 {
            self.transport.add_status(VIRTIO_STATUS_FAILED);
            return Err(Error::VirtioLegacyOnly);
        }
        self.transport.set_features(device_features);
        self.transport.add_status(VIRTIO_STATUS_FEATURES_OK);
        let status = self.transport.get_status();
        if status & VIRTIO_STATUS_FEATURES_OK != VIRTIO_STATUS_FEATURES_OK {
            self.transport.add_status(VIRTIO_STATUS_FAILED);
            return Err(Error::VirtioFeatureNegotiationFailed);
        }
        self.transport.set_queue(0);
        let max_queue = self.transport.get_queue_max_size();
        if max_queue < QUEUE_SIZE {
            self.transport.add_status(VIRTIO_STATUS_FAILED);
            return Err(Error::VirtioQueueTooSmall);
        }
        self.transport.set_queue_size(QUEUE_SIZE);
        self.transport.set_descriptors_address(self.queue.descriptors);
        self.transport.set_avail_ring(self.queue.avail);
        self.transport.set_used_ring(self.queue.used);
        self.transport.set_queue_enable();
        self.transport.add_status(VIRTIO_STATUS_DRIVER_OK);
        Ok(())
    }
}

/// Descriptor flag: the request goes on in the descriptor `next`.
pub const VIRTQ_DESC_F_NEXT: u16 = 1;
/// Descriptor flag: the device writes the buffer.
pub const VIRTQ_DESC_F_WRITE: u16 = 2;
/// Request status: done.
pub const VIRTIO_BLK_S_OK: u8 = 0;
/// Request status: the device failed to read.
pub const VIRTIO_BLK_S_IOERR: u8 = 1;
/// Size of the head of a block request: type, reserved word, sector.
pub const REQUEST_HEADER_SIZE: u32 = 16;

/// A descriptor of the request queue: a buffer, its flags and the next
/// descriptor of its chain.
#[derive(Clone, Copy, Debug, PartialEq, Eq, Structural)]
pub struct Descriptor {
    pub addr: u64,
    pub length: u32,
    pub flags: u16,
    pub next: u16,
}

/// Where a read request goes in the queue: its three descriptors (head,
/// data, status) at their slots, and the available ring entry that points
/// at the head.
#[derive(Clone, Copy, Debug)]
pub struct Placement {
    pub slots: (usize, usize, usize),
    pub descriptors: (Descriptor, Descriptor, Descriptor),
    pub ring_slot: usize,
    pub ring_value: u16,
}

/// Where the driver stands in the request queue: the next free descriptor
/// and the index of the available ring.
#[derive(Clone, Copy, Debug, PartialEq, Eq, Structural)]
pub struct DriverState {
    pub next_head: usize,
    pub avail_idx: u16,
}

impl DriverState {
    /// The state of a queue not used yet.
    pub fn new() -> (r: DriverState)
        ensures
            r.next_head == 0,
            r.avail_idx == 0,
    {
        DriverState { next_head: 0, avail_idx: 0 }
    }

    /// Places a read request whose head is at `header`, whose 512-byte
    /// buffer is at `data` and whose status byte is at `status`: three
    /// descriptors chained from the next free one, on around the queue, and
    /// the ring entry after the last one made available; the next request
    /// starts after them.
    pub fn place_read(&mut self, header: u64, data: u64, status: u64) -> (r: Placement)
        requires
            old(self).next_head < QUEUE_SIZE,
        ensures
            ({
                let h = old(self).next_head as int;
                &&& r.slots == (h as usize, ((h + 1) % 16) as usize, ((h + 2) % 16) as usize)
                &&& r.descriptors.0 == (Descriptor {
                    addr: header,
                    length: REQUEST_HEADER_SIZE,
                    flags: VIRTQ_DESC_F_NEXT,
                    next: ((h + 1) % 16) as u16,
                })
                &&& r.descriptors.1 == (Descriptor {
                    addr: data,
                    length: 512,
                    flags: VIRTQ_DESC_F_NEXT | VIRTQ_DESC_F_WRITE,
                    next: ((h + 2) % 16) as u16,
                })
                &&& r.descriptors.2 == (Descriptor { addr: status, length: 1, flags: VIRTQ_DESC_F_WRITE, next: 0 })
                &&& r.ring_slot == old(self).avail_idx % 16
                &&& r.ring_value == h
                &&& final(self).avail_idx == (old(self).avail_idx + 1) % 0x1_0000
                &&& final(self).next_head == (h + 3) % 16
            }),
    {
        let head = self.next_head;
        let second = (head + 1) % 16;
        let third = (second + 1) % 16;
        let d0 = Descriptor { addr: header, length: REQUEST_HEADER_SIZE, flags: VIRTQ_DESC_F_NEXT, next: second as u16 };
        let d1 = Descriptor {
            addr: data,
            length: 512,
            flags: VIRTQ_DESC_F_NEXT | VIRTQ_DESC_F_WRITE,
            next: third as u16,
        };
        let d2 = Descriptor { addr: status, length: 1, flags: VIRTQ_DESC_F_WRITE, next: 0 };
        let ring_slot = (self.avail_idx % 16) as usize;
        self.avail_idx = self.avail_idx.wrapping_add(1);
        self.next_head = (third + 1) % 16;
        Placement { slots: (head, second, third), descriptors: (d0, d1, d2), ring_slot, ring_value: head as u16 }
    }

    /// Whether the device has used every request made available, as the
    /// index `used_idx` of its used ring tells.
    pub fn completed(&self, used_idx: u16) -> (r: bool)
        ensures
            r == (used_idx == self.avail_idx),
    {
        used_idx == self.avail_idx
    }
}

/// What the status byte of a finished request says.
pub fn request_status(status: u8) -> (r: Result<(), Error>)
    ensures
        r == if status == VIRTIO_BLK_S_OK {
            Ok::<(), Error>(())
        } else if status == VIRTIO_BLK_S_IOERR {
            Err(Error::BlockIOError)
        } else {
            Err(Error::BlockNotSupported)
        },
{
    if status == VIRTIO_BLK_S_OK {
        Ok(())
    } else if status == VIRTIO_BLK_S_IOERR {
        Err(Error::BlockIOError)
    } else {
        Err(Error::BlockNotSupported)
    }
}

/// The head of a request to read sector `sector`: type 0 (read), a reserved
/// word, then the sector, little-endian.
pub fn read_request_header(sector: u64) -> (r: Vec<u8>)
    ensures
        r@ == crate::bytes::zeros(8) + crate::bytes::le_bytes(sector as int, 8),
{
    let mut r: Vec<u8> = Vec::new();
    crate::bytes::push_zeros(&mut r, 8);
    crate::bytes::push_le(&mut r, sector, 8);
    r
}

} // verus!
