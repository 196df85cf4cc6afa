use roboplc_io_ads::client::{fixup_write_read_return_buffers, Client, Command};
use roboplc_io_ads::device::Device;
use roboplc_io_ads::errors::{Error, IoError};
use roboplc_io_ads::netid::{AmsAddr, AmsNetId};
use roboplc_io_ads::notif::{Attributes, TransmissionMode};
use roboplc_io_ads::sumup::{
    AddNotifRequest, DelNotifRequest, ReadRequest, WriteReadRequest, WriteRequest,
};
use std::time::Duration;

fn source() -> AmsAddr {
    AmsAddr::new(AmsNetId::new(10, 0, 0, 1, 1, 1), 58913)
}

fn target() -> AmsAddr {
    AmsAddr::new(AmsNetId::new(5, 6, 7, 8, 1, 1), 851)
}

/// A good reply to a write-and-read under `invoke_id`: result code 0 and
/// then `data`.
fn reply(invoke_id: u32, data: &[u8]) -> Vec<u8> {
    let mut f = Vec::new();
    f.extend_from_slice(&[0, 0]);
    f.extend_from_slice(&(36 + data.len() as u32).to_le_bytes());
    f.extend_from_slice(&source().netid().0);
    f.extend_from_slice(&source().port().to_le_bytes());
    f.extend_from_slice(&target().netid().0);
    f.extend_from_slice(&target().port().to_le_bytes());
    f.extend_from_slice(&9u16.to_le_bytes());
    f.extend_from_slice(&5u16.to_le_bytes());
    f.extend_from_slice(&(4 + data.len() as u32).to_le_bytes());
    f.extend_from_slice(&0u32.to_le_bytes());
    f.extend_from_slice(&invoke_id.to_le_bytes());
    f.extend_from_slice(&0u32.to_le_bytes());
    f.extend_from_slice(data);
    f
}

#[test]
fn test_fixup_buffers() {
    let mut buf0 = *b"12345678AB";
    let mut buf1 = *b"CDEFabc";
    let mut buf2 = *b"dxyUVW";
    let mut buf3 = *b"XYZY";
    let mut buf4 = *b"XW----";
    let mut buf5 = *b"-------------";
    let reqs = &mut [
        WriteReadRequest::new(0, 0, &[], &mut buf0).unwrap(),
        WriteReadRequest::new(0, 0, &[], &mut buf1).unwrap(),
        WriteReadRequest::new(0, 0, &[], &mut buf2).unwrap(),
        WriteReadRequest::new(0, 0, &[], &mut buf3).unwrap(),
        WriteReadRequest::new(0, 0, &[], &mut buf4).unwrap(),
        WriteReadRequest::new(0, 0, &[], &mut buf5).unwrap(),
    ];
    reqs[0].set_result(0, 8);
    reqs[1].set_result(0, 6);
    reqs[2].set_result(0, 0);
    reqs[3].set_result(0, 4);
    reqs[4].set_result(0, 2);
    reqs[5].set_result(0, 9);

    fixup_write_read_return_buffers(reqs);

    assert!(&reqs[5].read_buffer()[..9] == b"UVWXYZYXW");
    assert!(&reqs[4].read_buffer()[..2] == b"xy");
    assert!(&reqs[3].read_buffer()[..4] == b"abcd");
    assert!(&reqs[1].read_buffer()[..6] == b"ABCDEF");
    assert!(&reqs[0].read_buffer()[..8] == b"12345678");
}

#[test]
fn fixup_gives_each_request_its_data() {
    let mut buf0 = *b"12345678AB";
    let mut buf1 = *b"CDEFabc";
    let mut buf2 = *b"dxyUVW";
    let mut buf3 = *b"XYZY";
    let mut buf4 = *b"XW----";
    let mut buf5 = *b"-------------";
    let reqs = &mut [
        WriteReadRequest::new(0, 0, &[], &mut buf0).unwrap(),
        WriteReadRequest::new(0, 0, &[], &mut buf1).unwrap(),
        WriteReadRequest::new(0, 0, &[], &mut buf2).unwrap(),
        WriteReadRequest::new(0, 0, &[], &mut buf3).unwrap(),
        WriteReadRequest::new(0, 0, &[], &mut buf4).unwrap(),
        WriteReadRequest::new(0, 0, &[], &mut buf5).unwrap(),
    ];
    let returned = [8, 6, 0, 4, 2, 9];
    for (req, n) in reqs.iter_mut().zip(returned) {
        req.set_result(0, n);
    }
    fixup_write_read_return_buffers(reqs);
    let expected: [&[u8]; 6] = [b"12345678", b"ABCDEF", b"", b"abcd", b"xy", b"UVWXYZYXW"];
    for (req, want) in reqs.iter().zip(expected) {
        assert_eq!(req.data(), Ok(want));
    }
    // What lies behind the data of a request is what lay there before.
    assert_eq!(reqs[0].read_buffer(), b"12345678AB");
    assert_eq!(reqs[1].read_buffer(), b"ABCDEFc");
    assert_eq!(reqs[2].read_buffer(), b"dxyUVW");
    assert_eq!(reqs[3].read_buffer(), b"abcd");
    assert_eq!(reqs[4].read_buffer(), b"xy----");
    assert_eq!(reqs[5].read_buffer(), b"UVWXYZYXW----");
}

#[test]
fn fixup_of_full_reads_changes_nothing() {
    let mut buf0 = *b"abc";
    let mut buf1 = *b"";
    let mut buf2 = *b"defgh";
    let reqs = &mut [
        WriteReadRequest::new(0, 0, &[], &mut buf0).unwrap(),
        WriteReadRequest::new(0, 0, &[], &mut buf1).unwrap(),
        WriteReadRequest::new(0, 0, &[], &mut buf2).unwrap(),
    ];
    reqs[0].set_result(0, 3);
    reqs[1].set_result(0, 0);
    reqs[2].set_result(0, 5);
    fixup_write_read_return_buffers(reqs);
    assert_eq!(reqs[0].read_buffer(), b"abc");
    assert_eq!(reqs[1].read_buffer(), b"");
    assert_eq!(reqs[2].read_buffer(), b"defgh");
}

#[test]
fn fixup_of_full_reads_again_and_again() {
    let mut buf0 = *b"abc";
    let mut buf1 = *b"defgh";
    let reqs = &mut [
        WriteReadRequest::new(0, 0, &[], &mut buf0).unwrap(),
        WriteReadRequest::new(0, 0, &[], &mut buf1).unwrap(),
    ];
    reqs[0].set_result(0, 3);
    reqs[1].set_result(0, 5);
    for _ in 0..3 {
        fixup_write_read_return_buffers(reqs);
        assert_eq!(reqs[0].read_buffer(), b"abc");
        assert_eq!(reqs[1].read_buffer(), b"defgh");
    }
}

#[test]
fn fixup_moves_data_within_one_buffer_and_across_many() {
    // The data of the last request starts in the first buffer and ends in
    // its own.
    let mut buf0 = *b"aXYZ";
    let mut buf1 = *b"12";
    let mut buf2 = *b"34";
    let mut buf3 = *b"5678----";
    let reqs = &mut [
        WriteReadRequest::new(0, 0, &[], &mut buf0).unwrap(),
        WriteReadRequest::new(0, 0, &[], &mut buf1).unwrap(),
        WriteReadRequest::new(0, 0, &[], &mut buf2).unwrap(),
        WriteReadRequest::new(0, 0, &[], &mut buf3).unwrap(),
    ];
    reqs[0].set_result(0, 1);
    reqs[1].set_result(0, 0);
    reqs[2].set_result(0, 0);
    reqs[3].set_result(0, 8);
    fixup_write_read_return_buffers(reqs);
    assert_eq!(reqs[0].read_buffer(), b"aXYZ");
    assert_eq!(reqs[3].read_buffer(), b"XYZ12345");
    // Nothing to do for no requests.
    let none: &mut [WriteReadRequest] = &mut [];
    fixup_write_read_return_buffers(none);
}

#[test]
fn sumup_short_reads() {
    let device = Device::new(source(), target());
    let mut bufs = [
        vec![0u8; 10],
        vec![0u8; 7],
        vec![0u8; 6],
        vec![0u8; 4],
        vec![0u8; 6],
        vec![b'-'; 13],
    ];
    let [b0, b1, b2, b3, b4, b5] = &mut bufs;
    let mut reqs = [
        WriteReadRequest::new(1, 0, b"a", b0).unwrap(),
        WriteReadRequest::new(2, 0, b"", b1).unwrap(),
        WriteReadRequest::new(3, 0, b"bc", b2).unwrap(),
        WriteReadRequest::new(4, 0, b"", b3).unwrap(),
        WriteReadRequest::new(5, 0, b"", b4).unwrap(),
        WriteReadRequest::new(6, 0, b"", b5).unwrap(),
    ];
    let request = device.write_read_multi_request(21, &reqs).unwrap();
    assert_eq!(request.cmd(), Command::ReadWrite);
    let payload = &request.bytes()[38..];
    // The head: index group, number of requests, read and write lengths.
    assert_eq!(
        &payload[..16],
        &[0x82, 0xF0, 0, 0, 6, 0, 0, 0, 8 * 6 + 46, 0, 0, 0, 16 * 6 + 3, 0, 0, 0]
    );
    // Then the heads of the requests, then the data to write.
    assert_eq!(&payload[16..32], &[1, 0, 0, 0, 0, 0, 0, 0, 10, 0, 0, 0, 1, 0, 0, 0]);
    assert_eq!(&payload[16 + 5 * 16..16 + 6 * 16], &[6, 0, 0, 0, 0, 0, 0, 0, 13, 0, 0, 0, 0, 0, 0, 0]);
    assert_eq!(&payload[16 + 6 * 16..], b"abc");

    let returned: [u32; 6] = [8, 6, 0, 4, 2, 9];
    let mut data = Vec::new();
    data.extend_from_slice(&(48u32 + 29).to_le_bytes());
    for n in returned {
        data.extend_from_slice(&0u32.to_le_bytes());
        data.extend_from_slice(&n.to_le_bytes());
    }
    data.extend_from_slice(b"12345678ABCDEFabcdxyUVWXYZYXW");
    assert_eq!(
        Device::write_read_multi_reply(&request, &reply(21, &data), &mut reqs),
        Ok(())
    );
    let expected: [&[u8]; 6] = [b"12345678", b"ABCDEF", b"", b"abcd", b"xy", b"UVWXYZYXW"];
    for (req, want) in reqs.iter().zip(expected) {
        assert_eq!(req.data(), Ok(want));
    }
    assert_eq!(reqs[5].read_buffer(), b"UVWXYZYXW----");
}

#[test]
fn sumup_write_read_with_an_error_of_one_request() {
    let device = Device::new(source(), target());
    let mut a = [0u8; 2];
    let mut b = [0u8; 2];
    let mut reqs = [
        WriteReadRequest::new(1, 0, b"", &mut a).unwrap(),
        WriteReadRequest::new(2, 0, b"", &mut b).unwrap(),
    ];
    let request = device.write_read_multi_request(1, &reqs).unwrap();
    let mut data = vec![20, 0, 0, 0];
    data.extend_from_slice(&[0x10, 0x07, 0, 0, 0, 0, 0, 0]);
    data.extend_from_slice(&[0, 0, 0, 0, 2, 0, 0, 0]);
    data.extend_from_slice(&[0xAB, 0xCD]);
    assert_eq!(
        Device::write_read_multi_reply(&request, &reply(1, &data), &mut reqs),
        Ok(())
    );
    assert_eq!(
        reqs[0].data(),
        Err(Error::Ads { action: "multi-read/write data", code: 0x0710 })
    );
    assert_eq!(reqs[1].data(), Ok(&[0xAB, 0xCD][..]));
}

#[test]
fn sumup_write_read_with_a_length_beyond_the_buffer() {
    let device = Device::new(source(), target());
    let mut a = [0u8; 2];
    let mut reqs = [WriteReadRequest::new(1, 0, b"", &mut a).unwrap()];
    let request = device.write_read_multi_request(1, &reqs).unwrap();
    let mut data = vec![11, 0, 0, 0];
    data.extend_from_slice(&[0, 0, 0, 0, 3, 0, 0, 0]);
    data.extend_from_slice(&[1, 2, 3]);
    assert_eq!(
        Device::write_read_multi_reply(&request, &reply(1, &data), &mut reqs),
        Err(Error::Io(IoError::BufferOverflow))
    );
    assert_eq!(reqs[0].read_buffer(), &[1, 2]);
    assert_eq!(reqs[0].data(), Err(Error::Io(IoError::BufferOverflow)));
}

#[test]
fn sumup_read() {
    let device = Device::new(source(), target());
    let mut a = [0u8; 3];
    let mut b = [0u8; 2];
    let mut reqs = [
        ReadRequest::new(0x4020, 1, &mut a).unwrap(),
        ReadRequest::new(0x4021, 2, &mut b).unwrap(),
    ];
    let request = device.read_multi_request(5, &reqs).unwrap();
    assert_eq!(
        &request.bytes()[38..],
        &[
            0x83, 0xF0, 0, 0, 2, 0, 0, 0, 21, 0, 0, 0, 24, 0, 0, 0, // head
            0x20, 0x40, 0, 0, 1, 0, 0, 0, 3, 0, 0, 0, // first request
            0x21, 0x40, 0, 0, 2, 0, 0, 0, 2, 0, 0, 0, // second request
        ]
    );
    let mut data = vec![21, 0, 0, 0];
    data.extend_from_slice(&[0, 0, 0, 0, 3, 0, 0, 0]);
    data.extend_from_slice(&[6, 7, 0, 0, 0, 0, 0, 0]);
    data.extend_from_slice(&[1, 2, 3, 0, 0]);
    assert_eq!(Device::read_multi_reply(&request, &reply(5, &data), &mut reqs), Ok(()));
    assert_eq!(reqs[0].data(), Ok(&[1, 2, 3][..]));
    assert_eq!(
        reqs[1].data(),
        Err(Error::Ads { action: "multi-read data", code: 0x0706 })
    );
    assert_eq!(reqs[1].read_buffer(), &[0, 0]);
}

#[test]
fn sumup_read_that_fails_as_a_whole() {
    let device = Device::new(source(), target());
    let mut a = [7u8; 3];
    let mut reqs = [ReadRequest::new(0x4020, 1, &mut a).unwrap()];
    let request = device.read_multi_request(5, &reqs).unwrap();
    let mut refused = reply(5, &[]);
    refused[38] = 0x01;
    refused[39] = 0x07;
    assert_eq!(
        Device::read_multi_reply(&request, &refused, &mut reqs),
        Err(Error::Ads { action: "write and read data", code: 0x0701 })
    );
    assert_eq!(reqs[0].read_buffer(), &[7, 7, 7]);
    assert_eq!(reqs[0].data(), Ok(&[][..]));
}

#[test]
fn sumup_write() {
    let device = Device::new(source(), target());
    let mut reqs = [
        WriteRequest::new(0x4020, 1, &[1, 2, 3]).unwrap(),
        WriteRequest::new(0x4021, 2, &[4]).unwrap(),
    ];
    let request = device.write_multi_request(6, &reqs).unwrap();
    assert_eq!(
        &request.bytes()[38..],
        &[
            0x81, 0xF0, 0, 0, 2, 0, 0, 0, 8, 0, 0, 0, 28, 0, 0, 0, // head
            0x20, 0x40, 0, 0, 1, 0, 0, 0, 3, 0, 0, 0, // first request
            0x21, 0x40, 0, 0, 2, 0, 0, 0, 1, 0, 0, 0, // second request
            1, 2, 3, 4, // data
        ]
    );
    let data = [8, 0, 0, 0, 0, 0, 0, 0, 0x05, 0x07, 0, 0];
    assert_eq!(Device::write_multi_reply(&request, &reply(6, &data), &mut reqs), Ok(()));
    assert_eq!(reqs[0].ensure(), Ok(()));
    assert_eq!(
        reqs[1].ensure(),
        Err(Error::Ads { action: "multi-write data", code: 0x0705 })
    );
}

#[test]
fn sumup_notifications() {
    let mut client = Client::new(source());
    let device = client.device(target());
    let attributes = Attributes::new(
        2,
        TransmissionMode::ServerCycle,
        Duration::from_millis(10),
        Duration::from_millis(20),
    );
    let mut adds = [
        AddNotifRequest::new(0x4020, 0, &attributes).unwrap(),
        AddNotifRequest::new(0x4020, 2, &attributes).unwrap(),
        AddNotifRequest::new(0x4020, 4, &attributes).unwrap(),
    ];
    let request = device.add_notification_multi_request(1, &adds).unwrap();
    let payload = &request.bytes()[38..];
    assert_eq!(
        &payload[..16],
        &[0x85, 0xF0, 0, 0, 3, 0, 0, 0, 24, 0, 0, 0, 120, 0, 0, 0]
    );
    let mut order = vec![
        0x20, 0x40, 0, 0, 2, 0, 0, 0, 2, 0, 0, 0, 3, 0, 0, 0, 10, 0, 0, 0, 20, 0, 0, 0,
    ];
    order.extend_from_slice(&[0; 16]);
    assert_eq!(&payload[16 + 40..16 + 80], &order[..]);

    let mut data = vec![24, 0, 0, 0];
    data.extend_from_slice(&[0, 0, 0, 0, 100, 0, 0, 0]);
    data.extend_from_slice(&[0x45, 0x07, 0, 0, 101, 0, 0, 0]);
    data.extend_from_slice(&[0, 0, 0, 0, 102, 0, 0, 0]);
    assert_eq!(
        device.add_notification_multi_reply(&mut client, &request, &reply(1, &data), &mut adds),
        Ok(())
    );
    assert_eq!(adds[0].handle(), Ok(100));
    assert_eq!(
        adds[1].handle(),
        Err(Error::Ads { action: "multi-read/write data", code: 0x0745 })
    );
    assert_eq!(adds[2].handle(), Ok(102));
    assert!(client.is_tracked(target(), 100));
    assert!(!client.is_tracked(target(), 101));
    assert!(client.is_tracked(target(), 102));
    assert_eq!(client.handle_count(), 2);

    let mut dels = [
        DelNotifRequest::new(100),
        DelNotifRequest::new(102),
        DelNotifRequest::new(7),
    ];
    let request = device.delete_notification_multi_request(2, &dels).unwrap();
    assert_eq!(
        &request.bytes()[38..],
        &[
            0x86, 0xF0, 0, 0, 3, 0, 0, 0, 12, 0, 0, 0, 12, 0, 0, 0, // head
            100, 0, 0, 0, 102, 0, 0, 0, 7, 0, 0, 0, // handles
        ]
    );
    let data = [12, 0, 0, 0, 0, 0, 0, 0, 0x52, 0x07, 0, 0, 0, 0, 0, 0];
    assert_eq!(
        device.delete_notification_multi_reply(&mut client, &request, &reply(2, &data), &mut dels),
        Ok(())
    );
    assert_eq!(dels[0].ensure(), Ok(()));
    assert_eq!(
        dels[1].ensure(),
        Err(Error::Ads { action: "multi-read/write data", code: 0x0752 })
    );
    assert_eq!(dels[2].ensure(), Ok(()));
    assert!(!client.is_tracked(target(), 100));
    assert!(client.is_tracked(target(), 102));
    assert_eq!(client.handle_count(), 1);
}

#[test]
fn sumup_reply_that_ends_early() {
    let device = Device::new(source(), target());
    let mut a = [9u8; 2];
    let mut b = [9u8; 2];
    let mut reqs = [
        ReadRequest::new(1, 1, &mut a).unwrap(),
        ReadRequest::new(1, 2, &mut b).unwrap(),
    ];
    let request = device.read_multi_request(5, &reqs).unwrap();
    // The answers are there, the data of the second request is not.
    let mut data = vec![20, 0, 0, 0];
    data.extend_from_slice(&[0, 0, 0, 0, 2, 0, 0, 0]);
    data.extend_from_slice(&[0, 0, 0, 0, 2, 0, 0, 0]);
    data.extend_from_slice(&[1, 2, 3]);
    assert_eq!(Device::read_multi_reply(&request, &reply(5, &data), &mut reqs), Ok(()));
    assert_eq!(reqs[0].read_buffer(), &[1, 2]);
    assert_eq!(reqs[1].read_buffer(), &[3, 9]);
}
