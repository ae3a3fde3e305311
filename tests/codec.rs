use binrw::io::{ByteReader, Cursor, IoError, IoErrorKind, Read, ReadAt, ReadExt, Seek, SeekFrom, Stream, Write};
use binrw::private::{
    assert_condition, coerce_fn, magic, map_args_type_hint, not_enough_bytes, restore_position_err,
    restore_position_variant, write_map_args_type_hint, write_zeroes,
    AssertErrorFn,
};
use binrw::read::read_uint;
use binrw::{
    BacktraceFrame, BinRead, BinReaderExt, BinWrite, BinWriterExt, ContextExt, CustomError, Endian, Error, NullString,
    NullWideString,
};

fn cursor(bytes: &[u8]) -> Cursor {
    Cursor::new(bytes.to_vec())
}

fn encode<T: BinWrite<Args = ()>>(v: &T, endian: Endian) -> Vec<u8> {
    let mut out = Cursor::new(Vec::new());
    v.write_options(&mut out, endian, &()).unwrap();
    out.into_inner()
}

#[test]
fn u32_little_endian_one() {
    let mut c = cursor(&[1, 0, 0, 0]);
    let v: u32 = c.read_le().unwrap();
    assert_eq!(v, 1);
    assert_eq!(c.position(), 4);
}

#[test]
fn u32_big_endian_one() {
    let mut c = cursor(&[0, 0, 0, 1]);
    let v: u32 = c.read_be().unwrap();
    assert_eq!(v, 1);
}

#[test]
fn byte_collection_from_offset() {
    let mut c = cursor(&[0, 1, 2, 3, 4, 5, 6, 7, 8, 9]);
    c.set_position(3);
    let v: Vec<u8> = Vec::<u8>::read_options(&mut c, Endian::Little, &6).unwrap();
    assert_eq!(v, vec![3, 4, 5, 6, 7, 8]);
    assert_eq!(c.position(), 9);
}

#[test]
fn bounded_view_yields_limit() {
    let mut c = cursor(&[0, 1, 2, 3, 4, 5, 6, 7, 8, 9]);
    c.set_position(3);
    let mut view = c.take(3);
    let mut out = Vec::new();
    let n = view.read_to_end(&mut out).unwrap();
    assert_eq!(n, 3);
    assert_eq!(out, vec![3, 4, 5]);
    assert_eq!(view.limit(), 0);
    let inner = view.into_inner();
    assert_eq!(inner.position(), 6);
}

#[test]
fn narrow_string_encoding() {
    let s = NullString::from_text("ab");
    let bytes = encode(&s, Endian::Little);
    assert_eq!(bytes, vec![0x61, 0x62, 0x00]);
}

#[test]
fn magic_mismatch_reports_and_rewinds() {
    let mut c = cursor(&[2, 0, 0, 0]);
    let r = magic(&mut c, 1u32, Endian::Little);
    match r {
        Err(Error::BadMagic { pos, found }) => {
            assert_eq!(pos, 0);
            assert_eq!(found, "2");
        }
        _ => panic!("expected a bad magic error"),
    }
    assert_eq!(c.position(), 0);
}

#[test]
fn magic_match_moves_past() {
    let mut c = cursor(&[1, 0, 0, 0, 9]);
    assert!(magic(&mut c, 1u32, Endian::Little).is_ok());
    assert_eq!(c.position(), 4);
}

#[test]
fn numbers_round_trip() {
    for e in [Endian::Little, Endian::Big] {
        let b = encode(&0x1234u16, e);
        assert_eq!(u16::read_options(&mut Cursor::new(b), e, &()).unwrap(), 0x1234);
        let b = encode(&-2i32, e);
        assert_eq!(i32::read_options(&mut Cursor::new(b), e, &()).unwrap(), -2);
        let b = encode(&i64::MIN, e);
        assert_eq!(i64::read_options(&mut Cursor::new(b), e, &()).unwrap(), i64::MIN);
        let b = encode(&u128::MAX, e);
        assert_eq!(u128::read_options(&mut Cursor::new(b), e, &()).unwrap(), u128::MAX);
        let b = encode(&-1i128, e);
        assert_eq!(i128::read_options(&mut Cursor::new(b), e, &()).unwrap(), -1);
        let b = encode(&i128::MIN, e);
        assert_eq!(i128::read_options(&mut Cursor::new(b), e, &()).unwrap(), i128::MIN);
        let b = encode(&-128i8, e);
        assert_eq!(i8::read_options(&mut Cursor::new(b), e, &()).unwrap(), -128);
        let b = encode(&0xdead_beef_u64, e);
        assert_eq!(u64::read_options(&mut Cursor::new(b), e, &()).unwrap(), 0xdead_beef);
    }
}

#[test]
fn number_byte_layouts() {
    assert_eq!(encode(&0x01020304u32, Endian::Little), vec![4, 3, 2, 1]);
    assert_eq!(encode(&0x01020304u32, Endian::Big), vec![1, 2, 3, 4]);
    assert_eq!(encode(&-2i16, Endian::Big), vec![0xff, 0xfe]);
    assert_eq!(encode(&true, Endian::Big), vec![1]);
    assert_eq!(encode(&false, Endian::Big), vec![0]);
}

#[test]
fn bulk_bytes_match_one_by_one() {
    for len in [0usize, 1, 8, 8192] {
        let data: Vec<u8> = (0..len).map(|i| (i * 7 % 251) as u8).collect();
        let mut bulk = Cursor::new(data.clone());
        let fast: Vec<u8> = Vec::<u8>::read_options(&mut bulk, Endian::Little, &len).unwrap();
        let mut single = Cursor::new(data.clone());
        let mut slow = Vec::new();
        for _ in 0..len {
            slow.push(u8::read_options(&mut single, Endian::Little, &()).unwrap());
        }
        assert_eq!(fast, slow);
        assert_eq!(bulk.position(), single.position());
    }
}

#[test]
fn bulk_signed_bytes_write() {
    let v: Vec<i8> = vec![-1, 0, 5, -128];
    let out = encode_vec(&v);
    assert_eq!(out, vec![0xff, 0, 5, 0x80]);
}

fn encode_vec(v: &Vec<i8>) -> Vec<u8> {
    let mut out = Cursor::new(Vec::new());
    v.write_options(&mut out, Endian::Little, &()).unwrap();
    out.into_inner()
}

#[test]
fn collection_too_short_fails() {
    let mut c = cursor(&[1, 2, 3]);
    let r = Vec::<u16>::read_options(&mut c, Endian::Little, &2);
    assert!(r.is_err());
}

#[test]
fn array_and_tuple_decode() {
    let mut c = cursor(&[1, 0, 2, 0, 3, 0, 7, 8, 9]);
    let a: [u16; 3] = <[u16; 3]>::read_options(&mut c, Endian::Little, &()).unwrap();
    assert_eq!(a, [1, 2, 3]);
    let t: (u8, u16) = <(u8, u16)>::read_options(&mut c, Endian::Big, &()).unwrap();
    assert_eq!(t, (7, 0x0809));
}

#[test]
fn option_box_unit_bool() {
    let mut c = cursor(&[5, 0, 2]);
    let o: Option<u8> = Option::<u8>::read_options(&mut c, Endian::Little, &()).unwrap();
    assert_eq!(o, Some(5));
    let b: Box<bool> = Box::<bool>::read_options(&mut c, Endian::Little, &()).unwrap();
    assert!(!*b);
    let u: () = <()>::read_options(&mut c, Endian::Little, &()).unwrap();
    assert_eq!(u, ());
    let t: bool = bool::read_options(&mut c, Endian::Little, &()).unwrap();
    assert!(t);
    let mut out = Cursor::new(Vec::new());
    let none: Option<u32> = None;
    none.write_options(&mut out, Endian::Little, &()).unwrap();
    Some(3u16).write_options(&mut out, Endian::Big, &()).unwrap();
    assert_eq!(out.into_inner(), vec![0, 3]);
}

#[test]
fn tuple_encode_in_order() {
    let mut out = Cursor::new(Vec::new());
    (1u8, 2u16, 3u8).write_options(&mut out, Endian::Big, &()).unwrap();
    assert_eq!(out.into_inner(), vec![1, 0, 2, 3]);
}

#[test]
fn narrow_string_decode() {
    let mut c = cursor(&[0x61, 0x62, 0, 0x63]);
    let s = NullString::read_options(&mut c, Endian::Little, &()).unwrap();
    assert_eq!(s.0, vec![0x61, 0x62]);
    assert_eq!(c.position(), 3);
    assert_eq!(s.text(), "ab");
}

#[test]
fn narrow_string_without_end_fails() {
    let mut c = cursor(&[0x61, 0x62]);
    assert!(NullString::read_options(&mut c, Endian::Little, &()).is_err());
}

#[test]
fn wide_string_both_orders() {
    let s = NullWideString(vec![0x61, 0x263a]);
    let le = encode(&s, Endian::Little);
    assert_eq!(le, vec![0x61, 0, 0x3a, 0x26, 0, 0]);
    let be = encode(&s, Endian::Big);
    assert_eq!(be, vec![0, 0x61, 0x26, 0x3a, 0, 0]);
    let back = NullWideString::read_options(&mut Cursor::new(be), Endian::Big, &()).unwrap();
    assert_eq!(back, s);
    assert_eq!(back.text(), "a\u{263a}");
}

#[test]
fn lossy_text_uses_replacement() {
    assert_eq!(binrw::display_utf8(&[0x61, 0xff, 0x62]), "a\u{FFFD}b");
    assert_eq!(binrw::display_utf8(&[0x61, 0xe2, 0x82]), "a\u{FFFD}");
    assert_eq!(binrw::display_utf8(&[0xf0, 0x9f, 0x98, 0x80]), "\u{1F600}");
    assert_eq!(binrw::display_utf16(&[0xd83d, 0xde00, 0x61]), "\u{1F600}a");
    assert_eq!(binrw::display_utf16(&[0xd83d, 0x61]), "\u{FFFD}a");
    assert_eq!(binrw::display_utf16(&[0xde00]), "\u{FFFD}");
}

/// A source that fails reads after a number of bytes, and whose seeks can
/// be made to fail.
struct Faulty {
    data: Vec<u8>,
    pos: u64,
    fail_from: u64,
    seek_fails: bool,
}

impl Stream for Faulty {
    fn content(&self) -> vstd::seq::Seq<u8> {
        panic!("only a model")
    }

    fn offset(&self) -> vstd::prelude::nat {
        panic!("only a model")
    }

    fn faultless(&self) -> bool {
        false
    }

    fn restarts(&self) -> bool {
        false
    }

    fn lemma_stream_bounds(&self) {}
}

impl Read for Faulty {
    fn read(&mut self, buf: &mut [u8]) -> Result<usize, IoError> {
        if self.pos >= self.fail_from {
            return Err(IoError::new(IoErrorKind::Other, "device failed"));
        }
        let end = std::cmp::min(self.fail_from, self.data.len() as u64);
        let avail = end.saturating_sub(self.pos) as usize;
        let n = std::cmp::min(avail, buf.len());
        let start = self.pos as usize;
        buf[..n].copy_from_slice(&self.data[start..start + n]);
        self.pos += n as u64;
        Ok(n)
    }

    fn flush(&mut self) -> Result<(), IoError> {
        Ok(())
    }
}

impl Seek for Faulty {
    fn seek(&mut self, pos: SeekFrom) -> Result<u64, IoError> {
        if self.seek_fails {
            if let SeekFrom::Start(_) = pos {
                return Err(IoError::new(IoErrorKind::Other, "seek refused"));
            }
        }
        match pos {
            SeekFrom::Start(p) => self.pos = p,
            SeekFrom::Current(d) => self.pos = (self.pos as i64 + d) as u64,
            SeekFrom::End(d) => self.pos = (self.data.len() as i64 + d) as u64,
        }
        Ok(self.pos)
    }
}

#[test]
fn failed_read_restores_cursor() {
    let mut s = Faulty { data: vec![1, 2, 3, 4, 5, 6, 7, 8], pos: 1, fail_from: 3, seek_fails: false };
    let r = u32::read_options(&mut s, Endian::Little, &());
    match r {
        Err(Error::Io(e)) => assert_eq!(e.message, "device failed"),
        _ => panic!("expected the read error"),
    }
    assert_eq!(s.pos, 1);
    let r = read_uint(&mut s, 8, Endian::Big);
    assert!(r.is_err());
    assert_eq!(s.pos, 1);
}

#[test]
fn failed_restore_keeps_both_errors() {
    let mut s = Faulty { data: vec![1, 2, 3, 4], pos: 0, fail_from: 2, seek_fails: true };
    let r = u32::read_options(&mut s, Endian::Little, &());
    match r {
        Err(Error::Backtrace(bt)) => {
            match *bt.error {
                Error::Io(ref e) => assert_eq!(e.message, "seek refused"),
                _ => panic!("inner error should be the seek failure"),
            }
            assert_eq!(bt.frames.len(), 2);
            match &bt.frames[0] {
                BacktraceFrame::Message(m) => assert_eq!(m, "rewinding after a failure"),
                _ => panic!("first frame should be the rewinding message"),
            }
            match &bt.frames[1] {
                BacktraceFrame::Custom(e) => match **e {
                    Error::Io(ref e) => assert_eq!(e.message, "device failed"),
                    _ => panic!("second frame should be the read failure"),
                },
                _ => panic!("second frame should hold the read failure"),
            }
        }
        _ => panic!("expected a backtrace"),
    }
}

#[test]
fn restore_err_on_backtrace_moves_inner_error() {
    let inner = Error::NoVariantMatch { pos: 4 };
    let e = Error::Backtrace(binrw::Backtrace::new(inner, vec![BacktraceFrame::Message("outer".to_string())]));
    let r = restore_position_err(e, Error::Io(IoError::new(IoErrorKind::Other, "seek")));
    assert_eq!(r.text(), "rewinding after a failure\nno variants matched at 0x4\nouter\nseek");
}

#[test]
fn restore_variant_hands_error_back() {
    let mut c = cursor(&[1, 2, 3]);
    c.set_position(2);
    let r = restore_position_variant(&mut c, 0, Error::NoVariantMatch { pos: 0 });
    assert!(matches!(r, Ok(Error::NoVariantMatch { pos: 0 })));
    assert_eq!(c.position(), 0);
}

#[test]
fn error_texts() {
    assert_eq!(Error::BadMagic { pos: 0x1f, found: "2".to_string() }.text(), "bad magic at 0x1f: 2");
    assert_eq!(Error::AssertFail { pos: 16, message: "too big".to_string() }.text(), "too big at 0x10");
    assert_eq!(Error::NoVariantMatch { pos: 255 }.text(), "no variants matched at 0xff");
    assert_eq!(not_enough_bytes().text(), "not enough bytes in reader");
    let c = Error::Custom { pos: 1, err: CustomError::new("Range", "out of range") };
    assert_eq!(c.text(), "out of range at 0x1");
    let e = Error::EnumErrors {
        pos: 2,
        variant_errors: vec![
            ("A".to_string(), Error::NoVariantMatch { pos: 2 }),
            ("B".to_string(), Error::AssertFail { pos: 3, message: "bad".to_string() }),
        ],
    };
    assert_eq!(e.text(), "no variants matched at 0x2:\n  A: no variants matched at 0x2\n  B: bad at 0x3");
}

#[test]
fn context_frames_in_order() {
    let e = Error::NoVariantMatch { pos: 0 };
    let e = e.with_context(BacktraceFrame::Message("first".to_string()));
    let e = e.with_message("second", "lib.rs", 12);
    match &e {
        Error::Backtrace(bt) => {
            assert_eq!(bt.frames.len(), 2);
            assert!(matches!(*bt.error, Error::NoVariantMatch { pos: 0 }));
        }
        _ => panic!("expected a backtrace"),
    }
    assert_eq!(e.text(), "first\nsecond at lib.rs:12\nno variants matched at 0x0");
    let ok: Result<u8, Error> = Ok(3);
    assert!(matches!(ok.with_message("x", "f", 1), Ok(3)));
}

#[test]
fn custom_error_downcast() {
    let e = CustomError::new("Range", "out of range");
    assert!(e.is("Range"));
    assert!(!e.is("Other"));
    assert_eq!(e.downcast_ref("Range").map(|s| s.as_str()), Some("out of range"));
    assert!(e.downcast_ref("Other").is_none());
    let e = match e.downcast("Other") {
        Err(e) => e,
        Ok(_) => panic!("wrong kind must not downcast"),
    };
    assert_eq!(e.kind, "Range");
    let mut e = e;
    if let Some(m) = e.downcast_mut("Range") {
        m.push('!');
    }
    assert_eq!(e.downcast("Range").unwrap(), "out of range!");
}

#[test]
fn assertion_helper() {
    let ok = assert_condition(true, 3, AssertErrorFn::<fn() -> String, fn() -> CustomError>::Message(|| "m".to_string()));
    assert!(ok.is_ok());
    let r = assert_condition(false, 3, AssertErrorFn::<fn() -> String, fn() -> CustomError>::Message(|| "m".to_string()));
    assert!(matches!(r, Err(Error::AssertFail { pos: 3, ref message }) if message == "m"));
    let r = assert_condition(
        false,
        9,
        AssertErrorFn::<fn() -> String, fn() -> CustomError>::Error(|| CustomError::new("K", "k")),
    );
    assert!(matches!(r, Err(Error::Custom { pos: 9, ref err }) if err.kind == "K"));
}

#[test]
fn zero_padding() {
    for count in [0u64, 5, 32, 70] {
        let mut out = Cursor::new(vec![9]);
        out.set_position(1);
        write_zeroes(&mut out, count).unwrap();
        let v = out.into_inner();
        assert_eq!(v.len() as u64, 1 + count);
        assert!(v[1..].iter().all(|b| *b == 0));
        assert_eq!(v[0], 9);
    }
}

#[test]
fn cursor_write_past_end_pads() {
    let mut out = Cursor::new(vec![1]);
    out.set_position(3);
    out.write_all(&[7]).unwrap();
    assert_eq!(out.into_inner(), vec![1, 0, 0, 7]);
}

#[test]
fn seek_conveniences() {
    let mut c = cursor(&[1, 2, 3, 4, 5]);
    c.seek_relative(2).unwrap();
    assert_eq!(c.stream_position().unwrap(), 2);
    assert_eq!(c.stream_len().unwrap(), 5);
    assert_eq!(c.position(), 2);
    assert!(c.seek(SeekFrom::Current(-3)).is_err());
    assert_eq!(c.position(), 2);
    c.rewind().unwrap();
    assert_eq!(c.position(), 0);
    let mut buf = [0u8; 6];
    assert!(matches!(c.read_exact(&mut buf), Err(IoError { kind: IoErrorKind::UnexpectedEof, .. })));
}

#[test]
fn writer_extension_and_vec_sink() {
    let mut out: Vec<u8> = vec![0; 4];
    let mut c = Cursor::new(Vec::new());
    c.write_be(&0x0102u16).unwrap();
    c.write_le(&0x0102u16).unwrap();
    out.write_all(&c.into_inner()).unwrap();
    assert_eq!(out, vec![1, 2, 2, 1]);
}

#[test]
fn test_write_cursor() {
    let mut data = cursor(&[4, 5, 6]);
    let mut buffer = vec![1, 2, 3];
    binrw::io::copy(&mut data, &mut buffer).unwrap();
    assert_eq!(buffer, vec![4, 5, 6]);
    data.seek(SeekFrom::Start(3)).unwrap();
    binrw::io::copy(&mut data, &mut buffer).unwrap();
    assert_eq!(buffer, vec![4, 5, 6]);
}

#[test]
fn test_read_slice() {}

#[test]
fn test_write_slice() {
    let mut data = Cursor::new(Vec::new());
    data.write_all(&[1, 2, 3]).unwrap();
    assert_eq!(data.into_inner(), vec![1, 2, 3]);
}

#[test]
fn wide_string_from_text() {
    let s = NullWideString::from_text("a\u{1F600}");
    assert_eq!(s.0, vec![0x61, 0xd83d, 0xde00]);
    let bytes = encode(&s, Endian::Little);
    assert_eq!(bytes, vec![0x61, 0, 0x3d, 0xd8, 0x00, 0xde, 0, 0]);
    let v: Vec<u16> = s.into();
    assert_eq!(v.len(), 3);
    let n: Vec<u8> = NullString::from_text("hi").into();
    assert_eq!(n, vec![b'h', b'i']);
}

#[test]
fn borrowed_value_encodes_as_target() {
    let v = 0x0a0bu16;
    let r = &v;
    assert_eq!(encode(&r, Endian::Big), vec![0x0a, 0x0b]);
}

#[test]
fn type_hints_hand_back_their_input() {
    let mut f = coerce_fn(|x: u8| x + 1);
    assert_eq!(f(2), 3);
    let g = |x: u16| x as u32;
    assert_eq!(map_args_type_hint(&g, ()), ());
    assert_eq!(write_map_args_type_hint(&g, ()), ());
}

#[test]
fn failed_bool_read_restores_cursor() {
    let mut s = Faulty { data: vec![1, 2], pos: 1, fail_from: 1, seek_fails: false };
    assert!(bool::read_options(&mut s, Endian::Little, &()).is_err());
    assert_eq!(s.pos, 1);
}

#[test]
fn random_access_leaves_cursor() {
    let mut c = cursor(&[10, 11, 12, 13, 14]);
    c.set_position(1);
    let mut buf = [0u8; 3];
    assert_eq!(c.read_at(&mut buf, 3).unwrap(), 2);
    assert_eq!(&buf[..2], &[13, 14]);
    assert_eq!(c.read_at(&mut buf, 5).unwrap(), 0);
    assert_eq!(c.read_at(&mut buf, 9).unwrap(), 0);
    assert_eq!(c.position(), 1);
}

#[test]
fn short_read_rewinds_in_memory_cursor() {
    let mut c = cursor(&[9, 1, 2]);
    c.set_position(1);
    match u32::read_options(&mut c, Endian::Big, &()) {
        Err(Error::Io(e)) => assert_eq!(e.kind, IoErrorKind::UnexpectedEof),
        _ => panic!("expected end of stream"),
    }
    assert_eq!(c.position(), 1);
}

#[test]
fn vector_sink_needs_matching_length() {
    let mut sink: Vec<u8> = vec![1, 2];
    let r = sink.write_all(&[7, 8, 9]);
    assert!(matches!(r, Err(IoError { kind: IoErrorKind::InvalidInput, .. })));
    assert_eq!(sink, vec![1, 2]);
    sink.write_all(&[]).unwrap();
    assert_eq!(sink, vec![1, 2]);
    sink.write_all(&[5, 6]).unwrap();
    assert_eq!(sink, vec![5, 6]);
}

#[test]
fn bounded_view_counts_down() {
    let c = cursor(&[1, 2, 3, 4, 5]);
    let mut view = c.take(3);
    let mut buf = [0u8; 2];
    assert_eq!(view.read(&mut buf).unwrap(), 2);
    assert_eq!(view.limit(), 1);
    assert_eq!(view.read(&mut buf).unwrap(), 1);
    assert_eq!(buf[0], 3);
    assert_eq!(view.limit(), 0);
    assert_eq!(view.read(&mut buf).unwrap(), 0);
}

#[test]
fn native_order_round_trip() {
    let mut c = Cursor::new(Vec::new());
    c.write_ne(&0x1234_5678u32).unwrap();
    c.set_position(0);
    let v: u32 = c.read_ne().unwrap();
    assert_eq!(v, 0x1234_5678);
    let bytes = c.into_inner();
    let native = binrw::native();
    let expected = match native {
        Endian::Little => vec![0x78, 0x56, 0x34, 0x12],
        Endian::Big => vec![0x12, 0x34, 0x56, 0x78],
    };
    assert_eq!(bytes, expected);
}

#[test]
fn magic_on_short_stream_reports_end() {
    let mut c = cursor(&[1, 0]);
    match magic(&mut c, 1u32, Endian::Little) {
        Err(Error::Io(e)) => assert_eq!(e.kind, IoErrorKind::UnexpectedEof),
        _ => panic!("expected end of stream"),
    }
    assert_eq!(c.position(), 0);
    let mut c = cursor(&[0xfe, 0xff]);
    match magic(&mut c, 1i16, Endian::Little) {
        Err(Error::BadMagic { pos: 0, found }) => assert_eq!(found, "-2"),
        _ => panic!("expected a bad magic error"),
    }
}

#[test]
fn empty_encoding_touches_nothing() {
    let mut sink = Cursor::new(vec![3, 4]);
    sink.set_position(1);
    let none: Option<u16> = None;
    none.write_options(&mut sink, Endian::Little, &()).unwrap();
    assert_eq!(sink.position(), 1);
    assert_eq!(sink.into_inner(), vec![3, 4]);
}

#[test]
fn byte_reader_decodes_borrowed_bytes() {
    let bytes = [0u8, 0, 1, 2, 9];
    let mut r = ByteReader::new(&bytes);
    let v: u16 = r.read_be().unwrap();
    assert_eq!(v, 0);
    let w: u16 = r.read_be().unwrap();
    assert_eq!(w, 0x0102);
    assert_eq!(r.position(), 4);
    assert!(u16::read_options(&mut r, Endian::Big, &()).is_err());
    assert_eq!(r.position(), 4);
}

#[test]
fn checked_text_conversions() {
    assert_eq!(NullString(vec![0x61, 0x62]).to_utf8(), Some("ab".to_string()));
    assert_eq!(NullString(vec![0xff]).to_utf8(), None);
    assert_eq!(NullWideString(vec![0xd83d, 0xde00]).to_utf16(), Some("\u{1F600}".to_string()));
    assert_eq!(NullWideString(vec![0xd83d]).to_utf16(), None);
}
