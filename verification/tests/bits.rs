use obj2asterix::bit_reader::BitReader;
use obj2asterix::bit_writer::BitWriter;
use obj2asterix::error::{Error, InvalidSpec};

#[test]
fn test_bit_reader() -> Result<(), Error> {
    let data: Vec<u8> = vec![0x13, 0x37, 0x13, 0x37];
    let mut buf: &[u8] = &data;
    let mut reader = BitReader::new(4);
    assert_eq!(reader.read_bits(&mut buf, 32, 17)?, 0x1337);
    assert_eq!(reader.read_bits(&mut buf, 16, 14)?, 0x00);
    assert_eq!(reader.read_bits(&mut buf, 13, 13)?, 0x01);
    assert_eq!(reader.read_bits(&mut buf, 12, 5)?, 0x33);
    assert_eq!(reader.read_bits(&mut buf, 4, 1)?, 0x07);
    reader.finish()?;

    let data: Vec<u8> = vec![0x0a, 0x02];
    let mut buf: &[u8] = &data;
    let mut reader = BitReader::new(2);
    assert_eq!(reader.read_bits(&mut buf, 16, 13)?, 0);
    assert_eq!(reader.read_bits(&mut buf, 12, 1)?, 2562);
    reader.finish()?;

    Ok(())
}

#[test]
fn test_bit_writer() -> Result<(), Error> {
    let mut buf = Vec::new();
    let mut writer = BitWriter::new(4);
    writer.write_bits(&mut buf, (32, 17), 0x1337)?;
    writer.write_bits(&mut buf, (16, 14), 0x00)?;
    writer.write_bits(&mut buf, (13, 13), 0x01)?;
    writer.write_bits(&mut buf, (12, 5), 0x33)?;
    writer.write_bits(&mut buf, (4, 1), 0x07)?;
    writer.finish()?;
    assert_eq!(buf, [0x13, 0x37, 0x13, 0x37]);

    buf.clear();
    let mut writer = BitWriter::new(2);
    writer.write_bits(&mut buf, (16, 13), 0)?;
    writer.write_bits(&mut buf, (12, 1), 39426)?;
    assert_eq!(buf, [0x0a, 0x02]);
    Ok(())
}

#[test]
fn bit_reader_rejects_gaps() {
    let data: Vec<u8> = vec![0xff, 0xff];
    let mut buf: &[u8] = &data;
    let mut reader = BitReader::new(2);
    let r = reader.read_bits(&mut buf, 15, 9);
    assert!(matches!(r, Err(Error::InvalidSpec { child: InvalidSpec::NonContinousBits })));
    assert_eq!(buf.len(), 2);
}

#[test]
fn bit_reader_runs_out_of_data() {
    let data: Vec<u8> = vec![0xff];
    let mut buf: &[u8] = &data;
    let mut reader = BitReader::new(2);
    assert_eq!(reader.read_bits(&mut buf, 16, 13).unwrap(), 0xf);
    assert!(matches!(reader.read_bits(&mut buf, 12, 1), Err(Error::ReadingOob)));
}

#[test]
fn bit_reader_finish_needs_all_bits() {
    let data: Vec<u8> = vec![0xab, 0xcd];
    let mut buf: &[u8] = &data;
    let mut reader = BitReader::new(2);
    assert_eq!(reader.read_bits(&mut buf, 16, 9).unwrap(), 0xab);
    assert!(matches!(reader.finish(), Err(Error::InvalidSpec { child: InvalidSpec::NonContinousBits })));
}

#[test]
fn bit_writer_rejects_gaps_and_short_items() {
    let mut buf = Vec::new();
    let mut writer = BitWriter::new(1);
    assert!(matches!(
        writer.write_bits(&mut buf, (7, 1), 0),
        Err(Error::InvalidSpec { child: InvalidSpec::NonContinousBits })
    ));
    writer.write_bits(&mut buf, (8, 5), 0xf).unwrap();
    assert!(buf.is_empty());
    assert!(matches!(writer.finish(), Err(Error::InvalidSpec { child: InvalidSpec::NonContinousBits })));
}

#[test]
fn bits_written_are_read_back() {
    let mut buf = Vec::new();
    let mut writer = BitWriter::new(3);
    writer.write_bits(&mut buf, (24, 20), 0x1f).unwrap();
    writer.write_bits(&mut buf, (19, 7), 0x1abc).unwrap();
    writer.write_bits(&mut buf, (6, 1), 0x7f).unwrap();
    writer.finish().unwrap();
    let mut input: &[u8] = &buf;
    let mut reader = BitReader::new(3);
    assert_eq!(reader.read_bits(&mut input, 24, 20).unwrap(), 0x1f);
    assert_eq!(reader.read_bits(&mut input, 19, 7).unwrap(), 0x1abc);
    // only the six lowest bits of 0x7f fit
    assert_eq!(reader.read_bits(&mut input, 6, 1).unwrap(), 0x3f);
    reader.finish().unwrap();
}

#[test]
fn reads_are_windows_of_the_big_endian_value() {
    let data: Vec<u8> = vec![0xa5, 0x3c];
    let whole: u64 = 0xa53c;
    let mut buf: &[u8] = &data;
    let mut reader = BitReader::new(2);
    assert_eq!(reader.read_bits(&mut buf, 16, 13).unwrap(), (whole >> 12) % 16);
    assert_eq!(reader.read_bits(&mut buf, 12, 6).unwrap(), (whole >> 5) % 128);
    assert_eq!(reader.read_bits(&mut buf, 5, 1).unwrap(), whole % 32);
}

#[test]
fn runs_of_fields_are_read_back() -> Result<(), Error> {
    let fields: [(u32, u32, u64); 4] = [(24, 20, 0x1b), (19, 9, 0x5a5), (8, 8, 1), (7, 1, 0x7f)];
    let mut buf: Vec<u8> = Vec::new();
    let mut writer = BitWriter::new(3);
    for (s, e, v) in fields {
        writer.write_bits(&mut buf, (s, e), v)?;
    }
    writer.finish()?;
    let mut src: &[u8] = &buf;
    let mut reader = BitReader::new(3);
    for (s, e, v) in fields {
        assert_eq!(reader.read_bits(&mut src, s, e)?, v % (1u64 << (s - e + 1)));
    }
    reader.finish()?;
    assert!(src.is_empty());
    Ok(())
}
