use roboplc_io_ads::client::Command;
use roboplc_io_ads::device::Device;
use roboplc_io_ads::errors::{Error, IoError};
use roboplc_io_ads::mapping::AdsMapping;
use roboplc_io_ads::netid::{AmsAddr, AmsNetId};
use roboplc_io_ads::{PORT, UDP_PORT};

fn source() -> AmsAddr {
    AmsAddr::new(AmsNetId::new(10, 0, 0, 1, 1, 1), 58913)
}

fn target() -> AmsAddr {
    AmsAddr::new(AmsNetId::new(5, 6, 7, 8, 1, 1), 851)
}

/// A good reply to a request of `cmd` under `invoke_id`: result code 0 and
/// then `data`.
fn reply(cmd: u16, invoke_id: u32, data: &[u8]) -> Vec<u8> {
    let mut f = Vec::new();
    f.extend_from_slice(&[0, 0]);
    f.extend_from_slice(&(36 + data.len() as u32).to_le_bytes());
    f.extend_from_slice(&source().netid().0);
    f.extend_from_slice(&source().port().to_le_bytes());
    f.extend_from_slice(&target().netid().0);
    f.extend_from_slice(&target().port().to_le_bytes());
    f.extend_from_slice(&cmd.to_le_bytes());
    f.extend_from_slice(&5u16.to_le_bytes());
    f.extend_from_slice(&(4 + data.len() as u32).to_le_bytes());
    f.extend_from_slice(&0u32.to_le_bytes());
    f.extend_from_slice(&invoke_id.to_le_bytes());
    f.extend_from_slice(&0u32.to_le_bytes());
    f.extend_from_slice(data);
    f
}

/// One read through the mapping in the session `session`, with a server
/// that gives out the handle `fresh` and answers reads with `value`.
/// Returns the value read and whether a handle was acquired for it.
fn read(mapping: &mut AdsMapping, session: usize, fresh: u32, value: &[u8]) -> (Vec<u8>, bool) {
    let mut acquired = false;
    let handle = match mapping.cached_handle(session) {
        Some(handle) => handle,
        None => {
            acquired = true;
            let req = mapping.handle_request(1).unwrap();
            let mut data = vec![4, 0, 0, 0];
            data.extend_from_slice(&fresh.to_le_bytes());
            mapping.handle_reply(session, &req, &reply(9, 1, &data)).unwrap()
        }
    };
    let req = mapping.read_request(2, handle).unwrap();
    // The read goes to the handle.
    assert_eq!(&req.bytes()[38..46], &[0x05, 0xF0, 0, 0, handle as u8, 0, 0, 0]);
    let mut data = (value.len() as u32).to_le_bytes().to_vec();
    data.extend_from_slice(value);
    let got = mapping.read_reply(&req, &reply(2, 2, &data)).unwrap().to_vec();
    (got, acquired)
}

#[test]
fn cached_handle_invalidation() {
    let device = Device::new(source(), target());
    let mut mapping = AdsMapping::new(&device, "MAIN.bus", 16);
    assert_eq!(mapping.cached_handle(1), None);
    // Session A: the first read acquires the handle, the second uses it.
    assert_eq!(read(&mut mapping, 1, 0x11, &[1, 2]), (vec![1, 2], true));
    assert_eq!(mapping.cached_handle(1), Some(0x11));
    assert_eq!(read(&mut mapping, 1, 0x99, &[3]), (vec![3], false));
    // Session B: the handle of session A is no good.
    assert_eq!(mapping.cached_handle(2), None);
    assert_eq!(read(&mut mapping, 2, 0x22, &[4, 5, 6]), (vec![4, 5, 6], true));
    assert_eq!(mapping.cached_handle(2), Some(0x22));
    assert_eq!(mapping.cached_handle(1), None);
    mapping.invalidate();
    assert_eq!(mapping.cached_handle(2), None);
}

#[test]
fn handle_request_names_the_symbol() {
    let device = Device::new(source(), target());
    let mut mapping = AdsMapping::new(&device, "MAIN.x", 4);
    let req = mapping.handle_request(3).unwrap();
    assert_eq!(req.cmd(), Command::ReadWrite);
    assert_eq!(req.target(), target());
    assert_eq!(
        &req.bytes()[38..],
        &[
            0x03, 0xF0, 0, 0, 0, 0, 0, 0, 4, 0, 0, 0, 6, 0, 0, 0, b'M', b'A', b'I', b'N', b'.',
            b'x'
        ]
    );
    // A reply that refuses, or is short, leaves the cache alone.
    let mut refused = reply(9, 3, &[]);
    refused[38] = 0x10;
    refused[39] = 0x07;
    assert_eq!(
        mapping.handle_reply(1, &req, &refused),
        Err(Error::Ads { action: "write and read data", code: 0x0710 })
    );
    assert_eq!(
        mapping.handle_reply(1, &req, &reply(9, 3, &[2, 0, 0, 0, 1, 2])),
        Err(Error::Io(IoError::ShortData))
    );
    assert_eq!(
        mapping.handle_reply(1, &req, &reply(9, 3, &[4, 0, 0, 0, 1, 2, 3])),
        Err(Error::Io(IoError::BufferOverflow))
    );
    assert_eq!(
        mapping.handle_reply(1, &req, &reply(9, 3, &[8, 0, 0, 0, 1, 2, 3, 4, 5, 6, 7, 8])),
        Err(Error::Io(IoError::BufferOverflow))
    );
    assert_eq!(mapping.cached_handle(1), None);
}

#[test]
fn value_longer_than_the_buffer() {
    let device = Device::new(source(), target());
    let mut mapping = AdsMapping::new(&device, "MAIN.x", 2);
    let req = mapping.read_request(2, 7).unwrap();
    assert_eq!(&req.bytes()[38..], &[0x05, 0xF0, 0, 0, 7, 0, 0, 0, 2, 0, 0, 0]);
    assert_eq!(
        mapping.read_reply(&req, &reply(2, 2, &[3, 0, 0, 0, 1, 2, 3])),
        Err(Error::Io(IoError::BufferOverflow))
    );
    assert_eq!(IoError::BufferOverflow.message(), "buffer overflow");
    assert_eq!(
        mapping.read_reply(&req, &reply(2, 2, &[2, 0, 0, 0, 1])),
        Err(Error::Io(IoError::BufferOverflow))
    );
    assert_eq!(
        mapping.read_reply(&req, &reply(2, 2, &[1, 0, 0, 0, 9])),
        Ok(&[9][..])
    );
}

#[test]
fn write_through_the_mapping() {
    let device = Device::new(source(), target());
    let mut mapping = AdsMapping::new(&device, "MAIN.x", 4);
    mapping.write_buffer()[..3].copy_from_slice(&[7, 8, 9]);
    let req = mapping.write_request(5, 0x33, 3).unwrap();
    assert_eq!(req.cmd(), Command::Write);
    assert_eq!(
        &req.bytes()[38..],
        &[0x05, 0xF0, 0, 0, 0x33, 0, 0, 0, 3, 0, 0, 0, 7, 8, 9]
    );
    assert_eq!(AdsMapping::write_reply(&req, &reply(3, 5, &[])), Ok(()));
    // A value may grow the buffer; more than it holds cannot be written.
    mapping.write_buffer().extend_from_slice(&[1, 2]);
    assert!(mapping.write_request(5, 0x33, 6).is_ok());
    assert_eq!(mapping.write_request(5, 0x33, 7).err(), Some(Error::InvalidData));
}

#[test]
fn default_ports() {
    assert_eq!(PORT, 48898);
    assert_eq!(UDP_PORT, 48899);
}

#[test]
fn addresses() {
    let addr = AmsAddr::new(AmsNetId::new(1, 2, 3, 4, 5, 6), 0x0102);
    assert_eq!(addr.to_bytes(), [1, 2, 3, 4, 5, 6, 2, 1]);
    let mut out = vec![9];
    addr.write_to(&mut out);
    assert_eq!(out, vec![9, 1, 2, 3, 4, 5, 6, 2, 1]);
    assert_eq!(AmsAddr::read_from(&out[1..]), Some(addr));
    assert_eq!(AmsAddr::read_from(&[1, 2, 3, 4, 5, 6, 2, 1, 0xFF]), Some(addr));
    assert_eq!(AmsAddr::read_from(&out[2..]), None);
    assert!(addr.same(&addr));
    assert!(!addr.same(&AmsAddr::new(AmsNetId::new(1, 2, 3, 4, 5, 6), 0x0103)));
    assert!(!addr.same(&AmsAddr::new(AmsNetId::new(1, 2, 3, 4, 5, 7), 0x0102)));
    assert_eq!(AmsNetId::from_slice(&[1, 2, 3, 4, 5, 6]), Some(AmsNetId::new(1, 2, 3, 4, 5, 6)));
    assert_eq!(AmsNetId::from_slice(&[1, 2, 3, 4, 5]), None);
    assert_eq!(AmsNetId::from_slice(&[1, 2, 3, 4, 5, 6, 7]), None);
    assert!(AmsNetId::new(0, 0, 0, 0, 0, 0).is_zero());
    assert!(!AmsNetId::new(0, 0, 0, 0, 0, 1).is_zero());
}
