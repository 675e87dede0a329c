//! Framing.

use draug::error::IoKind;
use draug::proto::{
    frame_len, guest_frame_len, guest_missing, missing, read_frame, write_frame, Frame, GuestKind,
    HostKind, MAX_FRAME_LEN,
};
use serde_bytes::ByteBuf;

type Wire = (Vec<String>, Vec<(String, String)>, Option<String>, bool, bool, Option<u64>);

fn body(f: Frame) -> (Vec<u8>, usize) {
    match f {
        Frame::Body(b, next) => (b, next),
        Frame::End => panic!("no frame"),
    }
}

#[test]
fn roundtrip() {
    let mut buf = Vec::new();
    let msg: Wire = (
        vec!["echo".into(), "hi".into()],
        vec![("A".into(), "b".into())],
        None,
        false,
        false,
        Some(1000),
    );
    let d: u8 = HostKind::ExecRequest.discriminant();
    write_frame(&mut buf, &rmp_serde::to_vec(&(d, &msg)).unwrap()).unwrap();
    let d: u8 = GuestKind::Stdout.discriminant();
    let out: (u8, (ByteBuf,)) = (d, (ByteBuf::from(b"hi\n".to_vec()),));
    write_frame(&mut buf, &rmp_serde::to_vec(&out).unwrap()).unwrap();

    let (first, next) = body(read_frame(&buf, 0).unwrap());
    let (d, got): (u8, Wire) = rmp_serde::from_slice(&first).unwrap();
    assert_eq!(HostKind::from_discriminant(d), Ok(HostKind::ExecRequest));
    assert_eq!(got.0[0], "echo");
    assert_eq!(got, msg);
    let (second, end) = body(read_frame(&buf, next).unwrap());
    let (d, (data,)): (u8, (ByteBuf,)) = rmp_serde::from_slice(&second).unwrap();
    assert_eq!(GuestKind::from_discriminant(d), Ok(GuestKind::Stdout));
    assert_eq!(data.as_ref(), b"hi\n");
    assert!(matches!(read_frame(&buf, end).unwrap(), Frame::End));
}

#[test]
fn lengths_are_big_endian() {
    let mut buf = vec![7];
    write_frame(&mut buf, &vec![1; 0x0102]).unwrap();
    assert_eq!(&buf[..6], &[7, 0, 0, 1, 2, 1]);
    assert_eq!(frame_len(0, 0, 1, 2).unwrap(), 0x0102);
    assert_eq!(frame_len(0, 0x10, 0, 0).unwrap(), MAX_FRAME_LEN);
    assert_eq!(guest_frame_len(0, 0, 0, 5).unwrap(), 5);
}

#[test]
fn oversized_frames_are_refused_both_ways() {
    let mut buf = vec![1];
    let f = write_frame(&mut buf, &vec![0; MAX_FRAME_LEN as usize + 1]).unwrap_err();
    assert_eq!((f.kind, f.message.as_str()), (IoKind::InvalidData, "frame too large"));
    assert_eq!(buf, vec![1]);
    write_frame(&mut buf, &vec![0; MAX_FRAME_LEN as usize]).unwrap();

    let f = frame_len(0, 0x10, 0, 1).unwrap_err();
    assert_eq!(f.kind, IoKind::InvalidData);
    assert_eq!(f.message, "frame of 1048577 bytes exceeds MAX_FRAME_LEN");
    let f = guest_frame_len(0xff, 0, 0, 0).unwrap_err();
    assert_eq!(f.message, "oversized frame from guest");
    assert!(read_frame(&vec![0xff, 0xff, 0xff, 0xff, 1], 0).is_err());
}

#[test]
fn cut_frames() {
    // Only between frames do the bytes end properly.
    assert!(matches!(read_frame(&vec![], 0), Ok(Frame::End)));
    for cut in [vec![0, 0], vec![0, 0, 0], vec![0, 0, 0, 2], vec![0, 0, 0, 2, 9]] {
        let f = match read_frame(&cut, 0) {
            Err(f) => f,
            Ok(_) => panic!("a frame"),
        };
        assert_eq!((f.kind, f.message.as_str()), (IoKind::Other, "failed to fill whole buffer"));
    }
    let (b, next) = body(read_frame(&vec![0, 0, 0, 0], 0).unwrap());
    assert_eq!((b.len(), next), (0, 4));
}

#[test]
fn unknown_discriminants_are_refused() {
    for k in [HostKind::ExecRequest, HostKind::Stdin] {
        assert_eq!(HostKind::from_discriminant(k.discriminant()), Ok(k));
    }
    for d in 0..5u8 {
        assert_eq!(GuestKind::from_discriminant(d).unwrap().discriminant(), d);
    }
    assert_eq!(GuestKind::Exit.discriminant(), 3);
    let f = HostKind::from_discriminant(2).unwrap_err();
    assert_eq!((f.kind, f.message.as_str()), (IoKind::InvalidData, "unknown message discriminant 2"));
    assert_eq!(GuestKind::from_discriminant(5).unwrap_err().message, "unknown message discriminant 5");
}

#[test]
fn frames_arrive_in_parts() {
    assert_eq!(missing(&vec![]), Ok(4));
    assert_eq!(missing(&vec![0, 0, 0]), Ok(1));
    assert_eq!(missing(&vec![0, 0, 0, 2]), Ok(2));
    assert_eq!(missing(&vec![0, 0, 0, 2, 9]), Ok(1));
    assert_eq!(missing(&vec![0, 0, 0, 2, 9, 9]), Ok(0));
    assert_eq!(guest_missing(&vec![0, 0, 0, 2]), Ok(2));
    let long = vec![0xff, 0, 0, 0];
    assert_eq!(missing(&long).unwrap_err().message, "frame of 4278190080 bytes exceeds MAX_FRAME_LEN");
    assert_eq!(guest_missing(&long).unwrap_err().message, "oversized frame from guest");
}
