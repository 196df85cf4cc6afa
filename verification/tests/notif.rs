use roboplc_io_ads::errors::{Error, IoError};
use roboplc_io_ads::netid::{AmsAddr, AmsNetId};
use roboplc_io_ads::notif::{filetime_to_unix_nanos, Notification, Sample};
use roboplc_io_ads::reader::{Frame, Reader};

fn source() -> AmsAddr {
    AmsAddr::new(AmsNetId::new(10, 0, 0, 1, 1, 1), 58913)
}

fn target() -> AmsAddr {
    AmsAddr::new(AmsNetId::new(5, 6, 7, 8, 1, 1), 851)
}

/// A frame from `target` to `dest`, laid out by hand.
fn frame(ams_cmd: u16, dest: AmsAddr, command: u16, state_flags: u16, error: u32, invoke_id: u32, payload: &[u8]) -> Vec<u8> {
    let mut f = Vec::new();
    f.extend_from_slice(&ams_cmd.to_le_bytes());
    f.extend_from_slice(&(32 + payload.len() as u32).to_le_bytes());
    f.extend_from_slice(&dest.netid().0);
    f.extend_from_slice(&dest.port().to_le_bytes());
    f.extend_from_slice(&target().netid().0);
    f.extend_from_slice(&target().port().to_le_bytes());
    f.extend_from_slice(&command.to_le_bytes());
    f.extend_from_slice(&state_flags.to_le_bytes());
    f.extend_from_slice(&(payload.len() as u32).to_le_bytes());
    f.extend_from_slice(&error.to_le_bytes());
    f.extend_from_slice(&invoke_id.to_le_bytes());
    f.extend_from_slice(payload);
    f
}

/// The stamps of a notification: for each its time and its samples, handle
/// and data.
fn stamps(list: &[(u64, &[(u32, &[u8])])]) -> Vec<u8> {
    let mut s = Vec::new();
    s.extend_from_slice(&(list.len() as u32).to_le_bytes());
    for (time, samples) in list {
        s.extend_from_slice(&time.to_le_bytes());
        s.extend_from_slice(&(samples.len() as u32).to_le_bytes());
        for (handle, data) in *samples {
            s.extend_from_slice(&handle.to_le_bytes());
            s.extend_from_slice(&(data.len() as u32).to_le_bytes());
            s.extend_from_slice(data);
        }
    }
    s
}

/// A notification frame with the given stamps.
fn notification(list: &[(u64, &[(u32, &[u8])])]) -> Vec<u8> {
    let body = stamps(list);
    let mut payload = Vec::new();
    payload.extend_from_slice(&(body.len() as u32).to_le_bytes());
    payload.extend_from_slice(&body);
    frame(0, source(), 8, 4, 0, 0, &payload)
}

fn collect<'a>(notif: &'a Notification) -> Vec<Sample<'a>> {
    let mut all = Vec::new();
    let mut iter = notif.samples();
    while let Some(sample) = iter.next() {
        all.push(sample);
    }
    // The iterator stays at its end.
    assert_eq!(iter.next(), None);
    all
}

#[test]
fn notification_frame() {
    let data = notification(&[(132514560000000000, &[(42, &[0xAA, 0xBB]), (43, &[0xCC])])]);
    assert_eq!(data.len(), 77);
    let notif = Notification::new(data.clone()).unwrap();
    assert_eq!(notif.as_bytes(), &data[..]);
    assert_eq!(notif.stamps(), 1);
    let samples = collect(&notif);
    assert_eq!(
        samples,
        vec![
            Sample { handle: 42, timestamp: 1_606_982_400_000_000_000, data: &[0xAA, 0xBB] },
            Sample { handle: 43, timestamp: 1_606_982_400_000_000_000, data: &[0xCC] },
        ]
    );
    assert_eq!(notif.into_bytes(), data);
}

#[test]
fn notification_with_several_stamps() {
    let data = notification(&[
        (132514560000000000, &[(1, &[1])]),
        (132514560000000001, &[]),
        (132514560010000000, &[(2, &[]), (3, &[3, 3, 3]), (1, &[4])]),
        (0, &[(9, &[9])]),
    ]);
    let notif = Notification::new(data).unwrap();
    assert_eq!(notif.stamps(), 4);
    let samples = collect(&notif);
    // As many samples as the stamps announce: 1 + 0 + 3 + 1.
    assert_eq!(samples.len(), 5);
    let handles: Vec<u32> = samples.iter().map(|s| s.handle).collect();
    assert_eq!(handles, vec![1, 2, 3, 1, 9]);
    let lengths: Vec<usize> = samples.iter().map(|s| s.data.len()).collect();
    assert_eq!(lengths, vec![1, 0, 3, 1, 1]);
    assert_eq!(samples[0].timestamp, 1_606_982_400_000_000_000);
    assert_eq!(samples[1].timestamp, 1_606_982_401_000_000_000);
    assert_eq!(samples[3].timestamp, 1_606_982_401_000_000_000);
    assert_eq!(samples[4].timestamp, 0);
    assert_eq!(samples[2].data, &[3, 3, 3]);
}

#[test]
fn notification_with_a_time_beyond_64_bits() {
    let data = notification(&[(u64::MAX, &[(1, &[1])]), (u64::MAX / 100 + 1, &[(2, &[])])]);
    let notif = Notification::new(data).unwrap();
    let samples = collect(&notif);
    assert_eq!(samples.len(), 2);
    // The time is the largest there is, not one that wrapped around.
    assert_eq!(samples[0].timestamp, u64::MAX - 11_644_473_600_000_000_000);
    assert_eq!(samples[1].timestamp, u64::MAX - 11_644_473_600_000_000_000);
}

#[test]
fn notification_without_stamps() {
    let notif = Notification::new(notification(&[])).unwrap();
    assert_eq!(collect(&notif), vec![]);
}

#[test]
fn malformed_notifications() {
    let eof = Some(Error::Io(IoError::UnexpectedEof));
    let good = notification(&[(1, &[(42, &[0xAA, 0xBB]), (43, &[0xCC])])]);
    // Cut anywhere, the frame is refused.
    for len in 0..good.len() {
        assert_eq!(Notification::new(good[..len].to_vec()).err(), eof, "length {}", len);
    }
    // So it is with bytes left over.
    let mut long = good.clone();
    long.push(0);
    assert_eq!(Notification::new(long).err(), eof);
    // A sample that claims more data than there is.
    let mut lying = good.clone();
    lying[46 + 12 + 4] = 200;
    assert_eq!(Notification::new(lying).err(), eof);
    // More stamps announced than sent.
    let mut lying = good.clone();
    lying[42] = 2;
    assert_eq!(Notification::new(lying).err(), eof);
    assert_eq!(IoError::UnexpectedEof.message(), "unexpected end of file");
}

#[test]
fn filetime_conversion() {
    assert_eq!(filetime_to_unix_nanos(132514560000000000), 1_606_982_400_000_000_000);
    // The documented example of the conversion.
    assert_eq!(filetime_to_unix_nanos(133_575_013_473_650_000), 1_713_027_747_365_000_000);
    // 1970-01-01 itself, and the tick before it.
    assert_eq!(filetime_to_unix_nanos(116_444_736_000_000_000), 0);
    assert_eq!(filetime_to_unix_nanos(116_444_736_000_000_001), 100);
    assert_eq!(filetime_to_unix_nanos(116_444_735_999_999_999), 0);
    assert_eq!(filetime_to_unix_nanos(0), 0);
    // The largest tick count whose nanoseconds fit 64 bits, and beyond.
    assert_eq!(
        filetime_to_unix_nanos(u64::MAX / 100),
        u64::MAX / 100 * 100 - 11_644_473_600_000_000_000
    );
    assert_eq!(
        filetime_to_unix_nanos(u64::MAX / 100 + 1),
        u64::MAX - 11_644_473_600_000_000_000
    );
    assert_eq!(filetime_to_unix_nanos(u64::MAX), u64::MAX - 11_644_473_600_000_000_000);
}

#[test]
fn samples_cannot_be_written() {
    let data = [1u8, 2];
    let mut sample = Sample { handle: 1, timestamp: 0, data: &data };
    assert_eq!(sample.write(&[3]), Err(Error::Unimplemented));
    assert_eq!(sample.data, &[1, 2]);
}

#[test]
fn frame_length() {
    assert_eq!(Reader::frame_length(&[0, 0, 32, 0, 0, 0]), Some(38));
    assert_eq!(Reader::frame_length(&[0, 0, 0x34, 0x12, 0, 0]), Some(6 + 0x1234));
    assert_eq!(Reader::frame_length(&[1, 0, 0, 0, 0, 0]), Some(6));
    assert_eq!(Reader::frame_length(&[0, 0, 0, 0, 0]), None);
    assert_eq!(Reader::frame_length(&[]), None);
}

fn verdict(frame: Frame) -> &'static str {
    match frame {
        Frame::Reply { .. } => "reply",
        Frame::Notification(_) => "notification",
        Frame::Skip => "skip",
        Frame::Abort => "abort",
    }
}

#[test]
fn reader_sorts_frames() {
    let reader = Reader::new(source());
    // A reply goes to its request, whole.
    let reply = frame(0, source(), 2, 5, 0, 0x01020304, &[0, 0, 0, 0, 1, 2]);
    match reader.dispatch(reply.clone()) {
        Frame::Reply { invoke_id, frame } => {
            assert_eq!(invoke_id, 0x01020304);
            assert_eq!(frame, reply);
        }
        other => panic!("{}", verdict(other)),
    }
    // A reply is not judged here: an error code goes to the request too.
    let refused = frame(0, source(), 2, 5, 0x0701, 7, &[]);
    assert_eq!(verdict(reader.dispatch(refused)), "reply");
    // Messages of the router are passed over.
    for ams_cmd in [1u16, 0x1000, 0x1001, 0x1002] {
        let mut router = reply.clone();
        router[..2].copy_from_slice(&ams_cmd.to_le_bytes());
        assert_eq!(verdict(reader.dispatch(router)), "skip");
        // They need not even have an AMS header.
        let mut short = ams_cmd.to_le_bytes().to_vec();
        short.extend_from_slice(&[4, 0, 0, 0, 1, 2, 3, 4]);
        assert_eq!(verdict(reader.dispatch(short)), "skip");
    }
    // Anything else but an ADS command ends the reading.
    for ams_cmd in [2u16, 0x0100, 0x1003, 0xFFFF] {
        let mut unknown = reply.clone();
        unknown[..2].copy_from_slice(&ams_cmd.to_le_bytes());
        assert_eq!(verdict(reader.dispatch(unknown)), "abort");
    }
    // So does a data length that is not that of the data.
    let mut lying = reply.clone();
    lying[26] += 1;
    assert_eq!(verdict(reader.dispatch(lying)), "abort");
    let mut cut = reply.clone();
    cut.pop();
    assert_eq!(verdict(reader.dispatch(cut)), "abort");
    assert_eq!(verdict(reader.dispatch(reply[..37].to_vec())), "abort");
    assert_eq!(verdict(reader.dispatch(vec![0, 0, 0])), "abort");
    assert_eq!(verdict(reader.dispatch(vec![])), "abort");
    // A frame for someone else is passed over.
    let other = AmsAddr::new(AmsNetId::new(10, 0, 0, 1, 1, 1), 58914);
    let misdirected = frame(0, other, 2, 5, 0, 1, &[0, 0, 0, 0]);
    assert_eq!(verdict(reader.dispatch(misdirected)), "skip");
}

#[test]
fn reader_sorts_notifications() {
    let reader = Reader::new(source());
    let good = notification(&[(132514560000000000, &[(42, &[0xAA, 0xBB])])]);
    match reader.dispatch(good.clone()) {
        Frame::Notification(notif) => {
            assert_eq!(notif.as_bytes(), &good[..]);
            assert_eq!(collect(&notif).len(), 1);
        }
        other => panic!("{}", verdict(other)),
    }
    assert_eq!(verdict(reader.dispatch(notification(&[]))), "notification");
    // A notification that is a reply, or carries an error, is passed over.
    let mut flagged = good.clone();
    flagged[24] = 5;
    assert_eq!(verdict(reader.dispatch(flagged)), "skip");
    let mut failed = good.clone();
    failed[30] = 1;
    assert_eq!(verdict(reader.dispatch(failed)), "skip");
    // So is one whose length in front of the stamps is not in order.
    let mut lying = good.clone();
    lying[38] += 1;
    assert_eq!(verdict(reader.dispatch(lying)), "skip");
    let empty = frame(0, source(), 8, 4, 0, 0, &[0, 0, 0, 0]);
    assert_eq!(verdict(reader.dispatch(empty)), "skip");
    let bare = frame(0, source(), 8, 4, 0, 0, &[]);
    assert_eq!(verdict(reader.dispatch(bare)), "skip");
    // And one whose stamps do not fill it.
    let mut broken = good.clone();
    broken[42] = 2;
    assert_eq!(verdict(reader.dispatch(broken)), "skip");
    // A notification for someone else is passed over as well.
    let mut misdirected = good.clone();
    misdirected[6] = 11;
    assert_eq!(verdict(reader.dispatch(misdirected)), "skip");
}

#[test]
fn reader_restart() {
    let mut reader = Reader::new(source());
    // The first start is no restart; every later one is.
    assert!(!reader.start());
    assert!(reader.start());
    assert!(reader.start());
    // The reader asks for a new connection only in the session it started in.
    assert!(Reader::must_reconnect(3, 3));
    assert!(!Reader::must_reconnect(3, 4));
    // It still knows its address.
    let reply = frame(0, source(), 2, 5, 0, 1, &[0, 0, 0, 0]);
    assert_eq!(verdict(reader.dispatch(reply)), "reply");
}
