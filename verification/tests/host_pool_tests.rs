use std::collections::BTreeMap;

use xr819_tx::context::{HostContextAddress, HOST_TX_CONTEXTS, HOST_TX_CONTEXT_COUNT};
use xr819_tx::host_context::{
    initialize_host_context, read_u16, read_u32, write_host_context_fields, HostContextWriter,
    HOST_TX_CONTEXT_SIZE,
};
use xr819_tx::host_pool::{
    pop_host_free_list, push_host_free_list, rebuild_host_free_list, HostPoolIo,
    HOST_CONTEXT_FREE_HEAD,
};
use xr819_tx::host_tx::{HostPoolError, HostTxMetadata};
use xr819_tx::offset;
use xr819_tx::packet_ram::host_frame_state;

#[derive(Clone, Copy, Debug, PartialEq, Eq)]
enum AccessKind {
    Read,
    Write,
}

#[derive(Clone, Copy, Debug, PartialEq, Eq)]
struct PoolAccess {
    kind: AccessKind,
    address: u32,
    width: u8,
    value: u32,
}

struct PoolRecorder {
    bytes: BTreeMap<u32, u8>,
    accesses: Vec<PoolAccess>,
}

impl PoolRecorder {
    fn new() -> Self {
        Self { bytes: BTreeMap::new(), accesses: Vec::new() }
    }

    fn seed_u32(&mut self, address: u32, value: u32) {
        self.store(address, 4, value);
    }

    fn load(&self, address: u32, width: u32) -> u32 {
        let mut bytes = [0_u8; 4];
        for offset in 0..width {
            bytes[offset as usize] = self.bytes.get(&(address + offset)).copied().unwrap_or(0);
        }
        u32::from_le_bytes(bytes)
    }

    fn store(&mut self, address: u32, width: u32, value: u32) {
        let bytes = value.to_le_bytes();
        for offset in 0..width {
            self.bytes.insert(address + offset, bytes[offset as usize]);
        }
    }
}

impl HostPoolIo for PoolRecorder {
    fn read_u32(&mut self, address: u32) -> u32 {
        let value = self.load(address, 4);
        self.accesses.push(PoolAccess { kind: AccessKind::Read, address, width: 4, value });
        value
    }

    fn write_u8(&mut self, address: u32, value: u8) {
        self.store(address, 1, u32::from(value));
        self.accesses.push(PoolAccess {
            kind: AccessKind::Write,
            address,
            width: 1,
            value: u32::from(value),
        });
    }

    fn write_u16(&mut self, address: u32, value: u16) {
        self.store(address, 2, u32::from(value));
        self.accesses.push(PoolAccess {
            kind: AccessKind::Write,
            address,
            width: 2,
            value: u32::from(value),
        });
    }

    fn write_u32(&mut self, address: u32, value: u32) {
        self.store(address, 4, value);
        self.accesses.push(PoolAccess { kind: AccessKind::Write, address, width: 4, value });
    }
}

struct AddressRecordingWriter {
    writes: Vec<PoolAccess>,
}

impl HostContextWriter for AddressRecordingWriter {
    fn write_u8(&mut self, address: u32, value: u8) {
        self.writes.push(PoolAccess {
            kind: AccessKind::Write,
            address,
            width: 1,
            value: u32::from(value),
        });
    }

    fn write_u16(&mut self, address: u32, value: u16) {
        self.writes.push(PoolAccess {
            kind: AccessKind::Write,
            address,
            width: 2,
            value: u32::from(value),
        });
    }

    fn write_u32(&mut self, address: u32, value: u32) {
        self.writes.push(PoolAccess { kind: AccessKind::Write, address, width: 4, value });
    }
}

fn write(address: u32, width: u8, value: u32) -> PoolAccess {
    PoolAccess { kind: AccessKind::Write, address, width, value }
}

fn read(address: u32, value: u32) -> PoolAccess {
    PoolAccess { kind: AccessKind::Read, address, width: 4, value }
}

#[test]
fn host_context_addresses_preserve_pool_and_frame_state_identity() {
    let first = HostContextAddress::from_index(0).unwrap();
    let last = HostContextAddress::from_index(29).unwrap();

    assert_eq!(HostContextAddress::from_index(0), Some(first));
    assert_eq!(HostContextAddress::from_index(HOST_TX_CONTEXT_COUNT - 1), Some(last));
    assert_eq!(first.raw(), HOST_TX_CONTEXTS);
    assert_eq!(first.expected_frame_state(), host_frame_state(0));
    assert_eq!(last.raw(), HOST_TX_CONTEXTS + 29 * 0x170);
    assert_eq!(last.expected_frame_state(), host_frame_state(29));
    assert_eq!(HostContextAddress::from_raw(last.raw()), Some(last));
    assert_eq!(HostContextAddress::from_raw(last.raw() + 4), None);
    assert_eq!(HostContextAddress::from_index(HOST_TX_CONTEXT_COUNT), None);
}

#[test]
fn host_free_list_rebuild_pop_and_push_preserve_exact_order_and_widths() {
    let mut io = PoolRecorder::new();
    rebuild_host_free_list(&mut io);

    let first = HostContextAddress::from_index(0).unwrap();
    let last = HostContextAddress::from_index(HOST_TX_CONTEXT_COUNT - 1).unwrap();
    let second_last = HostContextAddress::from_index(28).unwrap();
    assert_eq!(io.load(HOST_CONTEXT_FREE_HEAD, 4), last.raw());
    assert_eq!(io.load(first.field(offset::INTRUSIVE_NEXT), 4), 0);
    assert_eq!(io.load(last.field(offset::INTRUSIVE_NEXT), 4), second_last.raw());
    assert_eq!(io.accesses[0], write(HOST_CONTEXT_FREE_HEAD, 4, 0));
    assert_eq!(io.accesses.last().copied(), Some(write(HOST_CONTEXT_FREE_HEAD, 4, last.raw())));

    io.accesses.clear();
    let popped = pop_host_free_list(&mut io).unwrap();
    assert_eq!(popped, last);
    assert_eq!(
        io.accesses,
        [
            read(HOST_CONTEXT_FREE_HEAD, last.raw()),
            read(last.field(offset::FRAME_STATE_ADDRESS), last.expected_frame_state()),
            read(last.field(offset::INTRUSIVE_NEXT), second_last.raw()),
            write(HOST_CONTEXT_FREE_HEAD, 4, second_last.raw()),
            write(last.field(offset::REQUEST_FLAGS), 1, 0),
            write(last.field(offset::COMPLETION_STATUS), 4, 0xfe),
            write(last.field(offset::TERMINAL_STATUS), 2, 0xfe),
            write(last.field(offset::OWNERSHIP_BITS), 4, 0),
        ]
    );

    io.accesses.clear();
    push_host_free_list(&mut io, popped);
    assert_eq!(
        io.accesses,
        [
            write(last.field(offset::COMPLETION_STATUS), 4, 0xff),
            write(last.field(offset::TERMINAL_STATUS), 2, 0xff),
            read(last.field(offset::OWNERSHIP_BITS), 0),
            write(last.field(offset::OWNERSHIP_BITS), 4, 0x0004_0000),
            read(HOST_CONTEXT_FREE_HEAD, second_last.raw()),
            write(last.field(offset::INTRUSIVE_NEXT), 4, second_last.raw()),
            write(HOST_CONTEXT_FREE_HEAD, 4, last.raw()),
        ]
    );
}

#[test]
fn host_free_list_rejects_empty_interior_and_corrupt_frame_state_pointers() {
    let first = HostContextAddress::from_index(0).unwrap();
    let mut io = PoolRecorder::new();
    assert_eq!(pop_host_free_list(&mut io), Err(HostPoolError::Empty));

    io.seed_u32(HOST_CONTEXT_FREE_HEAD, first.raw() + 4);
    assert_eq!(pop_host_free_list(&mut io), Err(HostPoolError::CorruptFreeHead));

    io.seed_u32(HOST_CONTEXT_FREE_HEAD, first.raw());
    io.seed_u32(first.field(offset::FRAME_STATE_ADDRESS), 0x0900_0000);
    assert_eq!(pop_host_free_list(&mut io), Err(HostPoolError::CorruptFrameState));
}

#[test]
fn context_initialization_records_field_derived_addresses_widths_and_order() {
    let context = HostContextAddress::from_index(3).unwrap();
    let metadata = HostTxMetadata {
        message_address: 0x0900_9000,
        packet_id: 0x1234_5678,
        max_tx_rate: 14,
        queue_id: 0x22,
        more: false,
        flags: 0x53,
        expire_time: 200,
        ht_tx_parameters: 1 | (0x60 << 11),
        frame_address: 0x0900_9018,
        frame_length: 147,
        interface: 1,
        submit_timer: 0x1020_3040,
        ac: 2,
        frame_state_address: context.expected_frame_state(),
    };
    let mut writer = AddressRecordingWriter { writes: Vec::new() };
    write_host_context_fields(&mut writer, context, metadata);
    assert_eq!(
        writer.writes[0],
        write(context.field(offset::FRAME_STATE_ADDRESS), 4, context.expected_frame_state())
    );
    assert_eq!(
        writer.writes[1..5],
        [
            write(context.field(offset::REQUEST_FLAGS), 1, 0),
            write(context.field(offset::COMPLETION_STATUS), 4, 0xfe),
            write(context.field(offset::TERMINAL_STATUS), 2, 0xfe),
            write(context.field(offset::OWNERSHIP_BITS), 4, 0),
        ]
    );
    let tail = writer.writes.last().copied().unwrap();
    assert_eq!(tail, write(context.field(offset::TX_RATE), 1, 14));
    let ownership_publication = writer
        .writes
        .iter()
        .position(|access| access.address == context.field(offset::OWNERSHIP_BITS) && access.value == 1)
        .unwrap();
    let request_identity = writer
        .writes
        .iter()
        .position(|access| access.address == context.field(offset::REQUEST_BUFFER))
        .unwrap();
    assert!(request_identity < ownership_publication);
}

#[test]
fn host_initializer_preserves_vendor_offsets() {
    let mut image = [0xaa; HOST_TX_CONTEXT_SIZE];
    initialize_host_context(
        &mut image,
        HostTxMetadata {
            message_address: 0x0900_9000,
            packet_id: 0x1234_5678,
            max_tx_rate: 14,
            queue_id: 0x22,
            more: false,
            flags: 0x53,
            expire_time: 200,
            ht_tx_parameters: 1 | (0x60 << 11),
            frame_address: 0x0900_9018,
            frame_length: 147,
            interface: 0,
            submit_timer: 0x1020_3040,
            ac: 2,
            frame_state_address: 0x0900_3678,
        },
    );

    assert_eq!(read_u32(&image, 0x00), 0x0900_9000);
    assert_eq!(read_u32(&image, 0x08), 0x1234_5678);
    assert_eq!(read_u32(&image, 0x10), 200);
    assert_eq!(read_u32(&image, 0x14), 1 | (0x60 << 11));
    assert_eq!(image[0x0c], 14);
    assert_eq!(image[0x0d], 2);
    assert_eq!(image[0x24], 14);
    assert_eq!(&image[0x25..0x34], &[0; 15]);
    assert_eq!(image[0xbf], 8);
    assert_eq!(image[0x53], 0);
    assert_eq!(image[0x52], 1);
    assert_eq!(image[0xa7], 1);
    assert_eq!(image[0x60], 2);
    assert_eq!(image[0x61], 1);
    assert_eq!(image[0x62], 5);
    assert_eq!(read_u16(&image, 0x5c), 147);
    assert_eq!(read_u16(&image, 0x70), 0xfe);
    assert_eq!(read_u32(&image, 0x54), 0x0900_9018);
    assert_eq!(read_u32(&image, 0xa0), 0x0900_3678);
    assert_eq!(read_u32(&image, 0x68), 0x1020_303f);
    assert_eq!(read_u32(&image, 0x58), 0x0081_0068);
}
