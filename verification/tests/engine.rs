use roboplc_io_ads::client::{Client, Command, Request, Source};
use roboplc_io_ads::device::Device;
use roboplc_io_ads::errors::{ads_error, ads_result, Error, IoError};
use roboplc_io_ads::netid::{AmsAddr, AmsNetId};
use roboplc_io_ads::notif::{Attributes, TransmissionMode};
use roboplc_io_ads::registry::ReplyRegistry;
use roboplc_io_ads::state::AdsState;
use roboplc_io_ads::wire::AdsHeader;
use std::time::Duration;

fn source() -> AmsAddr {
    AmsAddr::new(AmsNetId::new(10, 0, 0, 1, 1, 1), 58913)
}

fn target() -> AmsAddr {
    AmsAddr::new(AmsNetId::new(5, 6, 7, 8, 1, 1), 851)
}

/// A reply frame, laid out by hand.
fn frame(
    ams_cmd: u16,
    dest: AmsAddr,
    src: AmsAddr,
    command: u16,
    state_flags: u16,
    error_code: u32,
    invoke_id: u32,
    payload: &[u8],
) -> Vec<u8> {
    let mut f = Vec::new();
    f.extend_from_slice(&ams_cmd.to_le_bytes());
    f.extend_from_slice(&(32 + payload.len() as u32).to_le_bytes());
    f.extend_from_slice(&dest.netid().0);
    f.extend_from_slice(&dest.port().to_le_bytes());
    f.extend_from_slice(&src.netid().0);
    f.extend_from_slice(&src.port().to_le_bytes());
    f.extend_from_slice(&command.to_le_bytes());
    f.extend_from_slice(&state_flags.to_le_bytes());
    f.extend_from_slice(&(payload.len() as u32).to_le_bytes());
    f.extend_from_slice(&error_code.to_le_bytes());
    f.extend_from_slice(&invoke_id.to_le_bytes());
    f.extend_from_slice(payload);
    f
}

/// A good reply to a request of `cmd` under `invoke_id`: result code 0 and
/// then `data`.
fn reply(cmd: u16, invoke_id: u32, data: &[u8]) -> Vec<u8> {
    let mut payload = vec![0u8; 4];
    payload.extend_from_slice(data);
    frame(0, source(), target(), cmd, 5, 0, invoke_id, &payload)
}

#[test]
fn request_frame_layout() {
    let req = Request::new(source(), target(), Command::Read, 0x01020304, &[&[0xAA, 0xBB], &[0xCC]])
        .unwrap();
    let expected: Vec<u8> = vec![
        0, 0, // AMS command
        35, 0, 0, 0, // length: 32 + 3
        5, 6, 7, 8, 1, 1, // destination NetID
        0x53, 0x03, // destination port 851
        10, 0, 0, 1, 1, 1, // source NetID
        0x21, 0xE6, // source port 58913
        2, 0, // command: read
        4, 0, // state flags: request
        3, 0, 0, 0, // data length
        0, 0, 0, 0, // error code
        4, 3, 2, 1, // invoke ID
        0xAA, 0xBB, 0xCC,
    ];
    assert_eq!(req.bytes(), &expected[..]);
    assert_eq!(req.invoke_id(), 0x01020304);
    assert_eq!(req.cmd(), Command::Read);
    assert_eq!(req.target(), target());
}

#[test]
fn request_without_payload() {
    let req = Request::new(source(), target(), Command::DevInfo, 7, &[]).unwrap();
    assert_eq!(req.bytes().len(), 38);
    assert_eq!(&req.bytes()[2..6], &[32, 0, 0, 0]);
    assert_eq!(&req.bytes()[26..30], &[0, 0, 0, 0]);
}

#[test]
fn request_longer_than_32_bits_is_invalid_data() {
    // 64 buffers of 64 MiB are 4 GiB of payload; the one buffer is shared.
    let chunk = vec![0u8; 64 * 1024 * 1024];
    let parts: Vec<&[u8]> = (0..64).map(|_| &chunk[..]).collect();
    let r = Request::new(source(), target(), Command::Write, 1, &parts);
    assert_eq!(r.err(), Some(Error::InvalidData));
    let client = Client::new(source());
    assert_eq!(client.request(1, Command::Write, target(), &parts).err(), Some(Error::InvalidData));
}

#[test]
fn request_that_only_just_does_not_fit() {
    // The payload fits 32 bits, the payload with the AMS header does not.
    let chunk = vec![0u8; 64 * 1024 * 1024];
    let last = vec![0u8; 64 * 1024 * 1024 - 16];
    let mut parts: Vec<&[u8]> = (0..63).map(|_| &chunk[..]).collect();
    parts.push(&last[..]);
    let r = Request::new(source(), target(), Command::Write, 1, &parts);
    assert_eq!(r.err(), Some(Error::InvalidData));
}

#[test]
fn header_roundtrip() {
    let h = AdsHeader {
        ams_cmd: 0x1234,
        length: 0xDEADBEEF,
        dest_netid: AmsNetId::new(1, 2, 3, 4, 5, 6),
        dest_port: 0xBF02,
        src_netid: AmsNetId::new(9, 8, 7, 6, 5, 4),
        src_port: 0xE621,
        command: 9,
        state_flags: 5,
        data_length: 0x01020304,
        error_code: 0x0708090A,
        invoke_id: 0xCAFEBABE,
    };
    let bytes = h.to_bytes();
    assert_eq!(bytes.len(), 38);
    assert_eq!(&bytes[0..6], &[0x34, 0x12, 0xEF, 0xBE, 0xAD, 0xDE]);
    assert_eq!(&bytes[34..38], &[0xBE, 0xBA, 0xFE, 0xCA]);
    assert_eq!(AdsHeader::parse(&bytes), Some(h));
    assert_eq!(AdsHeader::parse(&bytes[..37]), None);
}

#[test]
fn simple_read() {
    let device = Device::new(source(), target());
    let mut buf = [0u8; 4];
    let req = device.read_request(1, 0x4020, 0x10, buf.len()).unwrap();
    assert_eq!(
        &req.bytes()[38..],
        &[0x20, 0x40, 0, 0, 0x10, 0, 0, 0, 4, 0, 0, 0]
    );
    let reply = reply(2, 1, &[4, 0, 0, 0, 1, 2, 3, 4]);
    assert_eq!(Device::read_reply(&req, &reply, &mut buf), Ok(4));
    assert_eq!(buf, [1, 2, 3, 4]);
}

#[test]
fn short_read_leaves_the_rest_of_the_buffer() {
    let device = Device::new(source(), target());
    let mut buf = [9u8; 6];
    let req = device.read_request(1, 1, 2, buf.len()).unwrap();
    let reply = reply(2, 1, &[2, 0, 0, 0, 0xAA, 0xBB]);
    assert_eq!(Device::read_reply(&req, &reply, &mut buf), Ok(2));
    assert_eq!(buf, [0xAA, 0xBB, 9, 9, 9, 9]);
    let mut buf = [9u8; 6];
    assert_eq!(
        Device::read_exact_reply(&req, &reply, &mut buf),
        Err(Error::Io(IoError::ShortData))
    );
}

#[test]
fn read_never_returns_more_than_the_buffer_holds() {
    let device = Device::new(source(), target());
    let mut buf = [9u8; 2];
    let req = device.read_request(1, 1, 2, buf.len()).unwrap();
    // The device claims four bytes for a buffer of two.
    let reply = reply(2, 1, &[4, 0, 0, 0, 1, 2, 3, 4]);
    assert_eq!(
        Device::read_reply(&req, &reply, &mut buf),
        Err(Error::Io(IoError::BufferOverflow))
    );
    assert_eq!(buf, [9, 9]);
    assert_eq!(
        Device::read_exact_reply(&req, &reply, &mut buf),
        Err(Error::Io(IoError::BufferOverflow))
    );
    assert_eq!(buf, [9, 9]);
    // A length that fills the buffer is the most there is.
    let full = self::reply(2, 1, &[2, 0, 0, 0, 1, 2]);
    assert_eq!(Device::read_reply(&req, &full, &mut buf), Ok(2));
    assert_eq!(buf, [1, 2]);
}

#[test]
fn read_never_returns_more_than_the_reply_carries() {
    let device = Device::new(source(), target());
    let mut buf = [9u8; 4];
    let req = device.read_request(1, 1, 2, buf.len()).unwrap();
    // The device claims three bytes and sends two.
    let reply = reply(2, 1, &[3, 0, 0, 0, 1, 2]);
    assert_eq!(
        Device::read_reply(&req, &reply, &mut buf),
        Err(Error::Io(IoError::BufferOverflow))
    );
    assert_eq!(buf, [9, 9, 9, 9]);
    // Data behind the length that the device gives is passed on as it is.
    let longer = self::reply(2, 1, &[1, 0, 0, 0, 1, 2]);
    assert_eq!(Device::read_reply(&req, &longer, &mut buf), Ok(1));
    assert_eq!(buf, [1, 2, 9, 9]);
    // Nothing claimed and nothing sent is a read of nothing.
    let mut buf = [9u8; 4];
    let nothing = self::reply(2, 1, &[0, 0, 0, 0]);
    assert_eq!(Device::read_reply(&req, &nothing, &mut buf), Ok(0));
    assert_eq!(buf, [9, 9, 9, 9]);
}

#[test]
fn read_exact_succeeds_on_a_full_read() {
    let device = Device::new(source(), target());
    let mut buf = [0u8; 3];
    let req = device.read_request(5, 1, 2, buf.len()).unwrap();
    let reply = reply(2, 5, &[3, 0, 0, 0, 7, 8, 9]);
    assert_eq!(Device::read_exact_reply(&req, &reply, &mut buf), Ok(()));
    assert_eq!(buf, [7, 8, 9]);
}

#[test]
fn complete_deals_data_over_the_buffers() {
    let req = Request::new(source(), target(), Command::ReadWrite, 3, &[]).unwrap();
    let reply = reply(9, 3, &[1, 2, 3, 4, 5, 6, 7]);
    let mut a = [0u8; 2];
    let mut b = [0u8; 0];
    let mut c = [0u8; 4];
    let mut d = [0xEEu8; 3];
    let mut e = [0xEEu8; 2];
    let n = req.complete(&reply, &mut [&mut a, &mut b, &mut c, &mut d, &mut e]);
    assert_eq!(n, Ok(7));
    assert_eq!(a, [1, 2]);
    assert_eq!(c, [3, 4, 5, 6]);
    assert_eq!(d, [7, 0xEE, 0xEE]);
    assert_eq!(e, [0xEE, 0xEE]);
}

#[test]
fn complete_without_output_returns_zero() {
    let req = Request::new(source(), target(), Command::Write, 3, &[&[1, 2, 3]]).unwrap();
    assert_eq!(req.complete(&reply(3, 3, &[]), &mut []), Ok(0));
    // Data in the reply is of no interest then.
    assert_eq!(req.complete(&reply(3, 3, &[1, 2, 3]), &mut []), Ok(0));
    // Without a result field the header's error code decides.
    let bare = frame(0, source(), target(), 3, 5, 0, 3, &[]);
    assert_eq!(bare.len(), 38);
    assert_eq!(req.complete(&bare, &mut []), Ok(0));
}

#[test]
fn reply_too_short() {
    let req = Request::new(source(), target(), Command::Read, 1, &[]).unwrap();
    let good = reply(2, 1, &[]);
    for len in [0, 1, 21, 22, 37] {
        let mut buf = [0u8; 1];
        assert_eq!(
            req.complete(&good[..len], &mut [&mut buf]),
            Err(Error::Io(IoError::ReplyTooShort))
        );
        assert_eq!(req.check(&good[..len]), Err(Error::Io(IoError::ReplyTooShort)));
    }
    assert_eq!(IoError::ReplyTooShort.message(), "reply too short");
}

#[test]
fn reply_from_another_address() {
    let req = Request::new(source(), target(), Command::Read, 1, &[]).unwrap();
    let other = AmsAddr::new(AmsNetId::new(5, 6, 7, 8, 1, 1), 852);
    let reply = frame(0, source(), other, 2, 5, 0, 1, &[0, 0, 0, 0]);
    assert_eq!(req.check(&reply), Err(Error::Io(IoError::UnexpectedSource)));
    assert_eq!(IoError::UnexpectedSource.message(), "unexpected source address");
}

#[test]
fn reply_to_another_command() {
    let req = Request::new(source(), target(), Command::Read, 1, &[]).unwrap();
    let reply = frame(0, source(), target(), 3, 5, 0, 1, &[0, 0, 0, 0]);
    assert_eq!(req.check(&reply), Err(Error::Io(IoError::UnexpectedCommand)));
    assert_eq!(IoError::UnexpectedCommand.message(), "unexpected command");
}

#[test]
fn reply_with_other_state_flags() {
    let req = Request::new(source(), target(), Command::Read, 1, &[]).unwrap();
    let reply = frame(0, source(), target(), 2, 4, 0, 1, &[0, 0, 0, 0]);
    assert_eq!(req.check(&reply), Err(Error::Io(IoError::UnexpectedStateFlags)));
    assert_eq!(IoError::UnexpectedStateFlags.message(), "unexpected state flags");
}

#[test]
fn reply_with_another_invoke_id() {
    let req = Request::new(source(), target(), Command::Read, 1, &[]).unwrap();
    let reply = frame(0, source(), target(), 2, 5, 0, 2, &[0, 0, 0, 0]);
    assert_eq!(req.check(&reply), Err(Error::Io(IoError::UnexpectedInvokeId)));
    assert_eq!(IoError::UnexpectedInvokeId.message(), "unexpected invoke ID");
}

#[test]
fn reply_with_ams_error_code() {
    let req = Request::new(source(), target(), Command::Read, 1, &[]).unwrap();
    let reply = frame(0, source(), target(), 2, 5, 0x0706, 1, &[]);
    assert_eq!(
        req.check(&reply),
        Err(Error::Ads { action: "read data", code: 0x0706 })
    );
    // The header's code goes before the result code of the payload.
    let reply = frame(0, source(), target(), 2, 5, 6, 1, &[7, 0, 0, 0]);
    assert_eq!(req.check(&reply), Err(Error::Ads { action: "read data", code: 6 }));
}

#[test]
fn reply_with_result_code() {
    let req = Request::new(source(), target(), Command::AddNotification, 1, &[]).unwrap();
    let reply = frame(0, source(), target(), 6, 5, 0, 1, &[0x45, 0x07, 0, 0]);
    let mut buf = [0u8; 4];
    assert_eq!(
        req.complete(&reply, &mut [&mut buf]),
        Err(Error::Ads { action: "add notification", code: 0x0745 })
    );
    assert_eq!(buf, [0; 4]);
}

#[test]
fn checks_come_in_order() {
    let req = Request::new(source(), target(), Command::Read, 1, &[]).unwrap();
    let other = AmsAddr::new(AmsNetId::new(1, 1, 1, 1, 1, 1), 1);
    // Everything is wrong: the address is named first.
    let reply = frame(0, source(), other, 3, 4, 9, 2, &[1, 0, 0, 0]);
    assert_eq!(req.check(&reply), Err(Error::Io(IoError::UnexpectedSource)));
    let reply = frame(0, source(), target(), 3, 4, 9, 2, &[1, 0, 0, 0]);
    assert_eq!(req.check(&reply), Err(Error::Io(IoError::UnexpectedCommand)));
    let reply = frame(0, source(), target(), 2, 4, 9, 2, &[1, 0, 0, 0]);
    assert_eq!(req.check(&reply), Err(Error::Io(IoError::UnexpectedStateFlags)));
    let reply = frame(0, source(), target(), 2, 5, 9, 2, &[1, 0, 0, 0]);
    assert_eq!(req.check(&reply), Err(Error::Io(IoError::UnexpectedInvokeId)));
    let reply = frame(0, source(), target(), 2, 5, 9, 1, &[1, 0, 0, 0]);
    assert_eq!(req.check(&reply), Err(Error::Ads { action: "read data", code: 9 }));
    let reply = frame(0, source(), target(), 2, 5, 0, 1, &[1, 0, 0, 0]);
    assert_eq!(req.check(&reply), Err(Error::Ads { action: "read data", code: 1 }));
    let reply = frame(0, source(), target(), 2, 5, 0, 1, &[0, 0, 0, 0]);
    assert_eq!(req.check(&reply), Ok(()));
}

#[test]
fn got_less_data_than_expected() {
    let req = Request::new(source(), target(), Command::Read, 1, &[]).unwrap();
    // Four bytes asked for, three sent.
    let reply = reply(2, 1, &[1, 2, 3]);
    let mut buf = [0u8; 4];
    assert_eq!(
        req.complete(&reply, &mut [&mut buf]),
        Err(Error::Io(IoError::ShortData))
    );
    assert_eq!(buf, [0; 4]);
    assert_eq!(IoError::ShortData.message(), "got less data than expected");
    // Only the first buffer has to be filled.
    let mut a = [0u8; 3];
    let mut b = [0u8; 8];
    assert_eq!(req.complete(&reply, &mut [&mut a, &mut b]), Ok(3));
    assert_eq!(a, [1, 2, 3]);
    // A reply without a result field has less than any buffer asks for.
    let bare = frame(0, source(), target(), 2, 5, 0, 1, &[]);
    let mut none = [0u8; 0];
    assert_eq!(
        req.complete(&bare, &mut [&mut none]),
        Err(Error::Io(IoError::ShortData))
    );
}

#[test]
fn reply_shorter_than_its_data_length() {
    let req = Request::new(source(), target(), Command::Read, 1, &[]).unwrap();
    let mut reply = reply(2, 1, &[1, 2, 3, 4]);
    reply.truncate(44);
    let mut buf = [0u8; 2];
    assert_eq!(
        req.complete(&reply, &mut [&mut buf]),
        Err(Error::Io(IoError::UnexpectedEof))
    );
    assert_eq!(buf, [0; 2]);
}

#[test]
fn interleaved_calls() {
    let device = Device::new(source(), target());
    let mut registry: ReplyRegistry<&str> = ReplyRegistry::new();
    let first = device.read_request(10, 1, 0, 2).unwrap();
    let second = device.read_request(11, 1, 0, 2).unwrap();
    assert_eq!(registry.register(first.invoke_id(), "first"), None);
    assert_eq!(registry.register(second.invoke_id(), "second"), None);
    assert_eq!(registry.len(), 2);
    // The server answers the second request first.
    let reply_second = reply(2, 11, &[2, 0, 0, 0, 0xBB, 0xBB]);
    let reply_first = reply(2, 10, &[2, 0, 0, 0, 0xAA, 0xAA]);
    assert_eq!(registry.take(11), Some("second"));
    assert!(registry.is_pending(10));
    assert_eq!(registry.take(10), Some("first"));
    assert_eq!(registry.len(), 0);
    let mut a = [0u8; 2];
    let mut b = [0u8; 2];
    assert_eq!(Device::read_reply(&second, &reply_second, &mut b), Ok(2));
    assert_eq!(Device::read_reply(&first, &reply_first, &mut a), Ok(2));
    assert_eq!(a, [0xAA, 0xAA]);
    assert_eq!(b, [0xBB, 0xBB]);
    // A reply that went to the wrong request is refused.
    assert_eq!(
        Device::read_reply(&first, &reply_second, &mut a),
        Err(Error::Io(IoError::UnexpectedInvokeId))
    );
    assert_eq!(a, [0xAA, 0xAA]);
}

#[test]
fn late_reply_is_dropped() {
    let mut registry: ReplyRegistry<u8> = ReplyRegistry::new();
    registry.register(7, 1);
    registry.register(8, 2);
    // The request 7 times out: the engine takes its entry out.
    assert_eq!(registry.take(7), Some(1));
    assert!(!registry.is_pending(7));
    // The reply arrives after all: the reader finds no slot.
    assert_eq!(registry.take(7), None);
    assert_eq!(registry.len(), 1);
    assert!(registry.is_pending(8));
}

#[test]
fn request_that_times_out() {
    let mut registry: ReplyRegistry<u8> = ReplyRegistry::new();
    registry.register(7, 1);
    registry.register(8, 2);
    assert_eq!(registry.time_out(7), Error::Io(IoError::Timeout));
    assert!(!registry.is_pending(7));
    assert!(registry.is_pending(8));
    assert_eq!(registry.take(7), None);
    // Giving up a request that is not pending changes nothing.
    assert_eq!(registry.time_out(9), Error::Io(IoError::Timeout));
    assert_eq!(registry.len(), 1);
    assert_eq!(IoError::Timeout.message(), "timed out");
}

#[test]
fn registering_twice_gives_the_old_slot_back() {
    let mut registry: ReplyRegistry<u8> = ReplyRegistry::new();
    assert_eq!(registry.register(7, 1), None);
    assert_eq!(registry.register(7, 2), Some(1));
    assert_eq!(registry.len(), 1);
    assert_eq!(registry.take(7), Some(2));
}

#[test]
fn device_maps_the_local_netid() {
    let client = Client::new(source());
    assert_eq!(client.source(), source());
    let local = client.device(AmsAddr::new(AmsNetId::local(), 851));
    assert_eq!(local.addr(), AmsAddr::new(AmsNetId::new(10, 0, 0, 1, 1, 1), 851));
    assert_eq!(local.source(), source());
    let other = client.device(target());
    assert_eq!(other.addr(), target());
    assert_eq!(AmsNetId::local(), AmsNetId::new(127, 0, 0, 1, 1, 1));
}

#[test]
fn source_address() {
    assert_eq!(Source::Addr(target()).resolve(Some([1, 2, 3, 4])), target());
    assert_eq!(
        Source::Auto.resolve(Some([192, 168, 0, 7])),
        AmsAddr::new(AmsNetId::new(192, 168, 0, 7, 1, 1), 58913)
    );
    assert_eq!(
        Source::Auto.resolve(None),
        AmsAddr::new(AmsNetId::new(127, 0, 0, 1, 1, 1), 58913)
    );
}

#[test]
fn commands() {
    let all = [
        (Command::DevInfo, 1, "get device info"),
        (Command::Read, 2, "read data"),
        (Command::Write, 3, "write data"),
        (Command::ReadState, 4, "read state"),
        (Command::WriteControl, 5, "write control"),
        (Command::AddNotification, 6, "add notification"),
        (Command::DeleteNotification, 7, "delete notification"),
        (Command::Notification, 8, "notification"),
        (Command::ReadWrite, 9, "write and read data"),
    ];
    for (cmd, code, action) in all {
        assert_eq!(cmd.code(), code);
        assert_eq!(cmd.action(), action);
    }
}

#[test]
fn ads_state_numbers() {
    let all = [
        AdsState::Invalid,
        AdsState::Idle,
        AdsState::Reset,
        AdsState::Init,
        AdsState::Start,
        AdsState::Run,
        AdsState::Stop,
        AdsState::SaveCfg,
        AdsState::LoadCfg,
        AdsState::PowerFail,
        AdsState::PowerGood,
        AdsState::Error,
        AdsState::Shutdown,
        AdsState::Suspend,
        AdsState::Resume,
        AdsState::Config,
        AdsState::Reconfig,
        AdsState::Stopping,
        AdsState::Incompatible,
        AdsState::Exception,
    ];
    for (i, state) in all.iter().enumerate() {
        assert_eq!(state.code(), i as u16);
        assert_eq!(AdsState::try_from(i as u16), Ok(*state));
    }
    assert_eq!(AdsState::try_from(20), Err("invalid state constant"));
    assert_eq!(AdsState::try_from(u16::MAX), Err("invalid state constant"));
}

#[test]
fn ads_state_names() {
    assert_eq!(AdsState::from_str("run"), Ok(AdsState::Run));
    assert_eq!(AdsState::from_str("Run"), Ok(AdsState::Run));
    assert_eq!(AdsState::from_str("POWERFAIL"), Ok(AdsState::PowerFail));
    assert_eq!(AdsState::from_str("SaveCfg"), Ok(AdsState::SaveCfg));
    assert_eq!(AdsState::from_str("invalid"), Ok(AdsState::Invalid));
    assert_eq!(AdsState::from_str("exception"), Ok(AdsState::Exception));
    assert_eq!(AdsState::from_str("incompatible"), Ok(AdsState::Incompatible));
    assert_eq!(AdsState::from_str("running"), Err("invalid state name"));
    assert_eq!(AdsState::from_str(""), Err("invalid state name"));
    assert_eq!(AdsState::from_str("ru"), Err("invalid state name"));
}

#[test]
fn write_request_and_reply() {
    let device = Device::new(source(), target());
    let req = device.write_request(2, 0x4020, 4, &[1, 2, 3]).unwrap();
    assert_eq!(req.cmd(), Command::Write);
    assert_eq!(
        &req.bytes()[38..],
        &[0x20, 0x40, 0, 0, 4, 0, 0, 0, 3, 0, 0, 0, 1, 2, 3]
    );
    assert_eq!(Device::write_reply(&req, &reply(3, 2, &[])), Ok(()));
    let refused = frame(0, source(), target(), 3, 5, 0, 2, &[5, 7, 0, 0]);
    assert_eq!(
        Device::write_reply(&req, &refused),
        Err(Error::Ads { action: "write data", code: 0x0705 })
    );
}

#[test]
fn write_read_request_and_reply() {
    let device = Device::new(source(), target());
    let req = device.write_read_request(2, 0xF003, 0, b"MAIN.x", 4).unwrap();
    assert_eq!(req.cmd(), Command::ReadWrite);
    assert_eq!(
        &req.bytes()[38..],
        &[
            0x03, 0xF0, 0, 0, 0, 0, 0, 0, 4, 0, 0, 0, 6, 0, 0, 0, b'M', b'A', b'I', b'N', b'.',
            b'x'
        ]
    );
    let mut out = [0u8; 4];
    let good = reply(9, 2, &[4, 0, 0, 0, 0x11, 0x22, 0x33, 0x44]);
    assert_eq!(Device::write_read_reply(&req, &good, &mut out), Ok(4));
    assert_eq!(out, [0x11, 0x22, 0x33, 0x44]);
    let mut out = [0u8; 4];
    assert_eq!(Device::write_read_exact_reply(&req, &good, &mut out), Ok(()));
    let short = reply(9, 2, &[2, 0, 0, 0, 0x11, 0x22]);
    assert_eq!(
        Device::write_read_exact_reply(&req, &short, &mut out),
        Err(Error::Io(IoError::ShortData))
    );
    let long = reply(9, 2, &[5, 0, 0, 0, 1, 2, 3, 4, 5]);
    let mut out = [7u8; 4];
    assert_eq!(
        Device::write_read_reply(&req, &long, &mut out),
        Err(Error::Io(IoError::BufferOverflow))
    );
    assert_eq!(out, [7; 4]);
}

#[test]
fn state_request_and_reply() {
    let device = Device::new(source(), target());
    let req = device.get_state_request(4).unwrap();
    assert_eq!(req.cmd(), Command::ReadState);
    assert_eq!(req.bytes().len(), 38);
    let good = reply(4, 4, &[5, 0, 0x34, 0x12]);
    assert_eq!(Device::get_state_reply(&req, &good), Ok((AdsState::Run, 0x1234)));
    let unknown = reply(4, 4, &[20, 0, 0, 0]);
    assert_eq!(Device::get_state_reply(&req, &unknown), Err(Error::InvalidData));
    let short = reply(4, 4, &[5, 0]);
    assert_eq!(
        Device::get_state_reply(&req, &short),
        Err(Error::Io(IoError::ShortData))
    );
}

#[test]
fn write_control_request() {
    let device = Device::new(source(), target());
    let req = device.write_control_request(4, AdsState::Stop, 0x0102).unwrap();
    assert_eq!(req.cmd(), Command::WriteControl);
    assert_eq!(&req.bytes()[38..], &[6, 0, 2, 1, 0, 0, 0, 0]);
    assert_eq!(Device::write_control_reply(&req, &reply(5, 4, &[])), Ok(()));
}

#[test]
fn device_info_reply() {
    let device = Device::new(source(), target());
    let req = device.get_info_request(9).unwrap();
    assert_eq!(req.cmd(), Command::DevInfo);
    let mut data = vec![3, 1, 0x2C, 0x0F];
    data.extend_from_slice(b"Plc30 App\0garbage");
    assert_eq!(data.len(), 21);
    let info = Device::get_info_reply(&req, &reply(1, 9, &data[..20])).unwrap();
    assert_eq!(info.name, "Plc30 App");
    assert_eq!(info.major, 3);
    assert_eq!(info.minor, 1);
    assert_eq!(info.version, 0x0F2C);
    // A name that fills the field has no terminator.
    let mut data = vec![1, 2, 3, 0];
    data.extend_from_slice(b"0123456789ABCDEF");
    let info = Device::get_info_reply(&req, &reply(1, 9, &data)).unwrap();
    assert_eq!(info.name, "0123456789ABCDEF");
    assert_eq!(info.version, 3);
    // Bytes above 127 are taken as the characters with these numbers.
    let mut data = vec![1, 2, 3, 0, 0xE4, 0x41];
    data.extend_from_slice(&[0; 14]);
    let info = Device::get_info_reply(&req, &reply(1, 9, &data)).unwrap();
    assert_eq!(info.name, "\u{e4}A");
    assert_eq!(
        Device::get_info_reply(&req, &reply(1, 9, &data[..19])).err(),
        Some(Error::Io(IoError::ShortData))
    );
}

#[test]
fn wait_running() {
    assert_eq!(Device::wait_running_step(Some(AdsState::Run), false), Some(true));
    assert_eq!(Device::wait_running_step(Some(AdsState::Run), true), Some(true));
    assert_eq!(Device::wait_running_step(Some(AdsState::Stop), false), None);
    assert_eq!(Device::wait_running_step(Some(AdsState::Stop), true), Some(false));
    assert_eq!(Device::wait_running_step(None, false), None);
    assert_eq!(Device::wait_running_step(None, true), Some(false));
}

#[test]
fn add_notification_tracks_the_handle() {
    let mut client = Client::new(source());
    let device = client.device(target());
    let attributes = Attributes::new(
        4,
        TransmissionMode::ServerOnChange,
        Duration::from_millis(1500),
        Duration::from_secs(70),
    );
    let req = device.add_notification_request(1, 0x4020, 8, &attributes).unwrap();
    assert_eq!(req.cmd(), Command::AddNotification);
    let mut expected = vec![
        0x20, 0x40, 0, 0, // index group
        8, 0, 0, 0, // index offset
        4, 0, 0, 0, // length
        4, 0, 0, 0, // on change
        0xDC, 0x05, 0, 0, // 1500 ms
        0x70, 0x11, 0x01, 0, // 70000 ms
    ];
    expected.extend_from_slice(&[0; 16]);
    assert_eq!(&req.bytes()[38..], &expected[..]);

    let refused = frame(0, source(), target(), 6, 5, 0, 1, &[1, 0, 0, 0, 42, 0, 0, 0]);
    assert_eq!(
        device.add_notification_reply(&mut client, &req, &refused),
        Err(Error::Ads { action: "add notification", code: 1 })
    );
    assert_eq!(client.handle_count(), 0);

    let good = reply(6, 1, &[42, 0, 0, 0]);
    assert_eq!(device.add_notification_reply(&mut client, &req, &good), Ok(42));
    assert!(client.is_tracked(target(), 42));
    assert!(!client.is_tracked(target(), 43));
    assert!(!client.is_tracked(source(), 42));
    assert_eq!(client.handle_count(), 1);
    // The same handle again is still one handle.
    assert_eq!(device.add_notification_reply(&mut client, &req, &good), Ok(42));
    assert_eq!(client.handle_count(), 1);
}

#[test]
fn delete_notification_strikes_the_handle() {
    let mut client = Client::new(source());
    let device = client.device(target());
    client.track(target(), 42);
    client.track(target(), 43);
    let req = device.delete_notification_request(2, 42).unwrap();
    assert_eq!(req.cmd(), Command::DeleteNotification);
    assert_eq!(&req.bytes()[38..], &[42, 0, 0, 0]);
    let refused = frame(0, source(), target(), 7, 5, 0x0752, 2, &[]);
    assert_eq!(
        device.delete_notification_reply(&mut client, &req, &refused, 42),
        Err(Error::Ads { action: "delete notification", code: 0x0752 })
    );
    assert!(client.is_tracked(target(), 42));
    assert_eq!(
        device.delete_notification_reply(&mut client, &req, &reply(7, 2, &[]), 42),
        Ok(())
    );
    assert!(!client.is_tracked(target(), 42));
    assert!(client.is_tracked(target(), 43));
}

#[test]
fn attributes_that_do_not_fit() {
    let device = Device::new(source(), target());
    let long = Attributes::new(
        4,
        TransmissionMode::ServerCycle,
        Duration::from_millis(u32::MAX as u64 + 1),
        Duration::from_millis(1),
    );
    assert_eq!(
        device.add_notification_request(1, 0, 0, &long).err(),
        Some(Error::InvalidData)
    );
    let fits = Attributes::new(
        4,
        TransmissionMode::NoTrans,
        Duration::from_millis(u32::MAX as u64),
        Duration::from_micros(1999),
    );
    let req = device.add_notification_request(1, 0, 0, &fits).unwrap();
    assert_eq!(&req.bytes()[38 + 12..38 + 24], &[0, 0, 0, 0, 255, 255, 255, 255, 1, 0, 0, 0]);
    assert_eq!(TransmissionMode::ServerCycle.code(), 3);
}

#[test]
fn shutdown_hands_out_the_handles() {
    let mut client = Client::new(source());
    client.track(target(), 1);
    client.track(target(), 2);
    client.track(source(), 1);
    client.untrack(target(), 9);
    let mut handles = client.shutdown();
    handles.sort();
    let mut expected = vec![(target(), 1), (target(), 2), (source(), 1)];
    expected.sort();
    assert_eq!(handles, expected);
    assert_eq!(client.handle_count(), 0);
    assert_eq!(client.shutdown(), vec![]);
    client.track(target(), 1);
    client.purge();
    assert_eq!(client.handle_count(), 0);
}

#[test]
fn result_codes() {
    assert_eq!(ads_result("read data", 0), Ok(()));
    assert_eq!(
        ads_result("read data", 0x0701),
        Err(Error::Ads { action: "read data", code: 0x0701 })
    );
    assert_eq!(
        ads_error("setting route", 5),
        Error::Ads { action: "setting route", code: 5 }
    );
}
