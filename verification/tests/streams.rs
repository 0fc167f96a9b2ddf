use archive_rclick::error::ArchiveError;
use archive_rclick::ffi::{E_ABORT, E_FAIL, E_INVALIDARG, SEEK_CUR, SEEK_END, SEEK_SET, S_OK};
use archive_rclick::joined::{MultiInStream, ReadOutcome, ReadStep, ZipInput, ZipRead};
use archive_rclick::streams::{
    answer_without_file, move_from, result_code, seek_buffered, seek_target, write_result,
    BufferedSeek, InStream, OutStream, OutputBudget, ReadReply, SeekTarget, WriteDecision,
    UNKNOWN_POSITION,
};
use archive_rclick::volumes::{VolumeOutput, VolumeStep};
use std::io::{BufReader, Cursor, Read, Seek, SeekFrom};

/// A file that holds its bytes in memory.
struct Memory {
    bytes: Vec<u8>,
    cursor: u64,
}

impl Memory {
    fn new() -> Memory {
        Memory { bytes: Vec::new(), cursor: 0 }
    }

    fn put(&mut self, data: &[u8]) {
        let end = self.cursor as usize + data.len();
        if self.bytes.len() < end {
            self.bytes.resize(end, 0);
        }
        self.bytes[self.cursor as usize..end].copy_from_slice(data);
        self.cursor = end as u64;
    }
}

fn write(stream: &mut OutStream, budget: &mut OutputBudget, file: &mut Memory, size: u32) -> i32 {
    let asked = if stream.needs_position() { Some(file.cursor) } else { None };
    match stream.begin_write(budget, size, asked) {
        WriteDecision::Return(code) => code,
        WriteDecision::Perform => {
            file.put(&vec![1; size as usize]);
            stream.finish_write(size, true).0
        }
    }
}

fn set_size(stream: &mut OutStream, budget: &mut OutputBudget, file: &mut Memory, size: u64) -> i32 {
    match stream.begin_set_size(budget, size) {
        WriteDecision::Return(code) => code,
        WriteDecision::Perform => {
            file.bytes.resize(size as usize, 0);
            S_OK
        }
    }
}

fn seek(stream: &mut OutStream, file: &mut Memory, offset: i64, origin: u32) -> u64 {
    let landed = match seek_target(offset, origin).unwrap() {
        SeekTarget::Start(position) => Some(position),
        SeekTarget::Current(offset) => move_from(file.cursor, offset),
        SeekTarget::End(offset) => move_from(file.bytes.len() as u64, offset),
    };
    file.cursor = landed.unwrap();
    assert_eq!(stream.finish_seek(landed), S_OK);
    file.cursor
}

#[test]
fn native_output_counts_rewrites_and_rejects_before_io() {
    let mut budget = OutputBudget::new(8, 100);
    let mut output = OutStream::new();
    let mut file = Memory::new();
    assert_eq!(write(&mut output, &mut budget, &mut file, 4), S_OK);
    seek(&mut output, &mut file, 0, SEEK_SET);
    assert_eq!(write(&mut output, &mut budget, &mut file, 4), S_OK);
    assert_eq!(write(&mut output, &mut budget, &mut file, 1), E_ABORT);
    assert_eq!(file.bytes.len(), 4);
    assert!(matches!(budget.error(), Some(ArchiveError::LimitExceeded(_))));
}

#[test]
fn native_output_shares_total_across_streams() {
    let mut budget = OutputBudget::new(8, 8);
    let results: Vec<i32> = (0..4)
        .map(|_| write(&mut OutStream::new(), &mut budget, &mut Memory::new(), 4))
        .collect();
    assert_eq!(results.iter().filter(|&&code| code == S_OK).count(), 2);
    assert_eq!(results.iter().filter(|&&code| code == E_ABORT).count(), 2);
}

#[test]
fn native_output_preallocation_is_not_double_charged_or_refunded() {
    let mut budget = OutputBudget::new(8, 8);
    let mut first = OutStream::new();
    let mut file = Memory::new();
    assert_eq!(set_size(&mut first, &mut budget, &mut file, 8), S_OK);
    assert_eq!(write(&mut first, &mut budget, &mut file, 8), S_OK);
    assert_eq!(set_size(&mut first, &mut budget, &mut file, 0), S_OK);
    let mut second = OutStream::new();
    let mut other = Memory::new();
    assert_eq!(set_size(&mut second, &mut budget, &mut other, 1), E_ABORT);
    assert_eq!(other.bytes.len(), 0);
}

#[test]
fn native_output_rejects_oversized_set_size_and_sparse_write() {
    let mut budget = OutputBudget::new(8, 100);
    let mut output = OutStream::new();
    let mut file = Memory::new();
    assert_eq!(set_size(&mut output, &mut budget, &mut file, 9), E_ABORT);
    assert_eq!(file.bytes.len(), 0);
    let mut budget = OutputBudget::new(8, 100);
    let mut output = OutStream::new();
    let mut file = Memory::new();
    seek(&mut output, &mut file, 8, SEEK_SET);
    assert_eq!(write(&mut output, &mut budget, &mut file, 1), E_ABORT);
    assert_eq!(file.bytes.len(), 0);
}

#[test]
fn native_output_rejects_counter_overflow() {
    let mut budget = OutputBudget::new(u64::MAX, u64::MAX);
    let mut output = OutStream::new();
    let mut file = Memory::new();
    output.written = u64::MAX;
    assert_eq!(write(&mut output, &mut budget, &mut file, 1), E_ABORT);
    assert_eq!(file.bytes.len(), 0);
}

#[test]
fn native_output_tracks_relative_end_and_unknown_positions() {
    let mut budget = OutputBudget::new(64, 64);
    let mut output = OutStream::new();
    let mut file = Memory::new();
    assert_eq!(write(&mut output, &mut budget, &mut file, 8), S_OK);
    for (offset, origin, expected) in [(-3, SEEK_CUR, 5), (-2, SEEK_END, 6)] {
        let position = seek(&mut output, &mut file, offset, origin);
        assert_eq!(position, expected);
        assert_eq!(output.position, expected);
    }
    output.position = UNKNOWN_POSITION;
    assert_eq!(write(&mut output, &mut budget, &mut file, 4), S_OK);
    assert_eq!(output.position, 10);
    assert_eq!(file.bytes.len(), 10);
    assert_eq!(set_size(&mut output, &mut budget, &mut file, 2), S_OK);
    assert_eq!(write(&mut output, &mut budget, &mut file, 1), S_OK);
    assert_eq!(file.bytes.len(), 11);
}

#[test]
fn failed_writes_lose_the_position_and_keep_the_charge() {
    let mut budget = OutputBudget::new(8, 8);
    let mut output = OutStream::new();
    assert_eq!(output.begin_write(&mut budget, 5, None), WriteDecision::Perform);
    assert_eq!(output.finish_write(5, false), (E_FAIL, 0));
    assert!(output.needs_position());
    assert_eq!(budget.total, 5);
    assert_eq!(output.begin_write(&mut budget, 1, None), WriteDecision::Return(E_FAIL));
    assert_eq!(output.begin_write(&mut budget, 0, None), WriteDecision::Return(S_OK));
    assert_eq!(output.finish_seek(None), E_FAIL);
    output.open = false;
    assert_eq!(output.begin_unlimited_write(1), WriteDecision::Return(E_FAIL));
}

#[test]
fn unknown_origins_are_refused() {
    assert_eq!(seek_target(0, 3), Err(E_INVALIDARG));
    assert_eq!(seek_target(-5, SEEK_SET), Ok(SeekTarget::Start(0)));
    assert_eq!(move_from(3, -4), None);
    assert_eq!(move_from(u64::MAX, 1), None);
}

struct CountedInput {
    data: Cursor<Vec<u8>>,
    reads: usize,
    seeks: usize,
}

impl Read for CountedInput {
    fn read(&mut self, bytes: &mut [u8]) -> std::io::Result<usize> {
        self.reads += 1;
        self.data.read(bytes)
    }
}

impl Seek for CountedInput {
    fn seek(&mut self, from: SeekFrom) -> std::io::Result<u64> {
        self.seeks += 1;
        self.data.seek(from)
    }
}

fn reach(reader: &mut BufReader<CountedInput>, cursor: Option<u64>, target: u64) {
    match seek_buffered(cursor, target) {
        BufferedSeek::Relative(offset) => reader.seek_relative(offset).unwrap(),
        BufferedSeek::Absolute(position) => {
            reader.seek(SeekFrom::Start(position)).unwrap();
        }
    }
}

#[test]
fn repeated_small_reads_and_backward_seek_reuse_read_ahead() {
    let mut reader = BufReader::with_capacity(
        64,
        CountedInput { data: Cursor::new((0..128).collect()), reads: 0, seeks: 0 },
    );
    let mut cursor = Some(0);
    for target in [0u64, 8, 16, 24, 8, 16] {
        reach(&mut reader, cursor, target);
        let mut bytes = [0; 8];
        reader.read_exact(&mut bytes).unwrap();
        cursor = Some(target + 8);
        assert_eq!(
            bytes.to_vec(),
            (target as u8..target as u8 + 8).collect::<Vec<_>>()
        );
    }
    assert_eq!(reader.get_ref().reads, 1);
    assert_eq!(reader.get_ref().seeks, 0);
    reach(&mut reader, cursor, 100);
    let mut byte = [0];
    reader.read_exact(&mut byte).unwrap();
    assert_eq!(byte, [100]);
    reach(&mut reader, None, 3);
    reader.read_exact(&mut byte).unwrap();
    assert_eq!(byte, [3]);
}

/// Volumes that hold their bytes in memory.
struct Volumes {
    output: VolumeOutput,
    files: Vec<(String, Memory)>,
}

impl Volumes {
    fn write(&mut self, data: &[u8]) {
        let mut left = data;
        loop {
            match self.output.write(left.len()) {
                VolumeStep::Done => break,
                VolumeStep::Create { path } => {
                    self.files.push((path.clone(), Memory::new()));
                    self.output.part_created(path);
                }
                VolumeStep::Write { index, seek, amount } => {
                    if let Some(position) = seek {
                        self.files[index].1.cursor = position;
                    }
                    self.files[index].1.put(&left[..amount]);
                    self.output.part_written(index, amount);
                    left = &left[amount..];
                }
                other => panic!("{other:?}"),
            }
        }
    }

    fn set_size(&mut self, size: u64) {
        let mut pending = self.output.set_size(size).unwrap();
        loop {
            match self.output.next_resize(pending) {
                VolumeStep::Done => break,
                VolumeStep::Create { path } => {
                    self.files.push((path.clone(), Memory::new()));
                    self.output.part_created(path);
                }
                VolumeStep::Resize { index, length } => {
                    self.files[index].1.bytes.resize(length as usize, 0);
                    self.output.part_resized(&mut pending, length);
                }
                VolumeStep::Remove { path } => {
                    assert_eq!(self.files.pop().unwrap().0, path);
                    self.output.part_removed();
                }
                other => panic!("{other:?}"),
            }
        }
        self.output.finish_resize(pending);
    }
}

#[test]
fn split_output_revisits_volumes_and_preserves_position_after_resize() {
    let mut volumes = Volumes {
        output: VolumeOutput::new(Some("sample.7z".to_owned()), 8),
        files: Vec::new(),
    };
    volumes.write(b"abcdefghijklmnopqrst");
    volumes.output.seek(6, SEEK_SET).unwrap();
    volumes.write(b"123456");
    volumes.set_size(22);
    volumes.write(b"XY");
    volumes.output.close_files();
    assert_eq!(
        volumes.output.paths(),
        vec!["sample.7z.001", "sample.7z.002", "sample.7z.003"]
    );
    let contents: Vec<u8> = volumes.files.iter().flat_map(|file| file.1.bytes.clone()).collect();
    assert_eq!(contents, b"abcdef123456XYopqrst\0\0");
}

#[test]
fn shrinking_removes_the_last_volumes() {
    let mut volumes = Volumes { output: VolumeOutput::new(None, 4), files: Vec::new() };
    volumes.write(b"0123456789");
    assert_eq!(volumes.files.len(), 3);
    volumes.set_size(3);
    assert_eq!(volumes.files.len(), 1);
    assert_eq!(volumes.files[0].1.bytes, b"012");
    assert_eq!(volumes.output.length, 3);
    assert_eq!(volumes.output.position, 3);
    volumes.output.step_failed("part", "disk full");
    volumes.output.remember_error("part", "later");
    assert!(matches!(
        volumes.output.take_error(),
        Some(ArchiveError::Io { path, message }) if path == "part" && message == "disk full"
    ));
    assert!(volumes.output.take_error().is_none());
}

#[test]
fn joined_volumes_read_as_one_stream() {
    let parts: [&[u8]; 3] = [b"abcd", b"efg", b"hijkl"];
    let mut stream = MultiInStream::open(parts.iter().map(|part| part.len() as u64).collect()).unwrap();
    assert_eq!(stream.total_length, 12);
    assert_eq!(stream.seek(-9, SEEK_END), Ok(3));
    let mut read = stream.begin_read(7);
    let mut bytes = Vec::new();
    loop {
        match stream.next_read(read) {
            ReadStep::Done => break,
            ReadStep::Read { index, local, amount, .. } => {
                let at = local as usize;
                bytes.extend_from_slice(&parts[index][at..at + amount]);
                assert_eq!(stream.step_read(&mut read, index, local, ReadOutcome::Read(amount)), S_OK);
            }
        }
    }
    assert_eq!(stream.finish_read(read, 7), 7);
    assert_eq!(bytes, b"defghij");
    assert_eq!(stream.position, 10);
    let mut read = stream.begin_read(2);
    assert_eq!(stream.step_read(&mut read, 2, 3, ReadOutcome::ReadFailed), E_FAIL);
    assert!(MultiInStream::open(vec![u64::MAX, 1]).is_err());
}

#[test]
fn zip_input_reads_volume_by_volume() {
    let mut input = ZipInput::open(vec![4, 3]).unwrap();
    assert_eq!(input.seek(SeekTarget::End(-5)), Ok(2));
    assert_eq!(input.read(10), ZipRead::At { index: 0, offset: 2, count: 2 });
    input.advance(2);
    assert_eq!(input.read(10), ZipRead::At { index: 1, offset: 0, count: 3 });
    input.advance(3);
    assert_eq!(input.read(10), ZipRead::End);
    assert_eq!(input.seek(SeekTarget::Current(-8)), Err("invalid ZIP seek".to_owned()));
}

#[test]
fn reads_are_counted_and_reported() {
    assert_eq!(answer_without_file(false, 4), Some(E_INVALIDARG));
    assert_eq!(answer_without_file(false, 0), Some(S_OK));
    assert_eq!(answer_without_file(true, 0), Some(S_OK));
    assert_eq!(answer_without_file(true, 4), None);

    let mut input = InStream::new();
    assert_eq!(
        input.finish_read(Some(4)),
        ReadReply { code: S_OK, processed: 4, report: Some(4) }
    );
    assert_eq!(
        input.finish_read(Some(3)),
        ReadReply { code: S_OK, processed: 3, report: Some(7) }
    );
    assert_eq!(input.finish_read(Some(0)), ReadReply { code: S_OK, processed: 0, report: None });
    assert_eq!(input.finish_read(None), ReadReply { code: E_FAIL, processed: 0, report: None });
    assert_eq!(input.position, 7);
    assert_eq!(input.finish_seek(None), E_FAIL);
    assert_eq!(input.position, 7);
    assert_eq!(input.finish_seek(Some(2)), S_OK);
    assert_eq!(input.finish_read(Some(1)).report, Some(3));
}

#[test]
fn closed_outputs_are_neither_moved_nor_resized() {
    let mut output = OutStream::new();
    assert_eq!(output.begin_seek(-3, SEEK_SET), Ok(SeekTarget::Start(0)));
    assert_eq!(output.begin_seek(-3, SEEK_CUR), Ok(SeekTarget::Current(-3)));
    assert_eq!(output.begin_unlimited_set_size(), WriteDecision::Perform);
    output.open = false;
    assert_eq!(output.begin_seek(0, SEEK_END), Err(E_FAIL));
    assert_eq!(output.begin_seek(0, 9), Err(E_INVALIDARG));
    assert_eq!(output.begin_unlimited_set_size(), WriteDecision::Return(E_FAIL));
    assert_eq!((result_code(true), result_code(false)), (S_OK, E_FAIL));
    assert_eq!((write_result(6, true), write_result(6, false)), ((S_OK, 6), (E_FAIL, 0)));
}

#[test]
fn a_gap_in_the_last_volume_is_zeros() {
    let mut volumes = Volumes { output: VolumeOutput::new(None, 8), files: Vec::new() };
    volumes.write(b"0123456789");
    volumes.output.seek(13, SEEK_SET).unwrap();
    volumes.write(b"abcde");
    let contents: Vec<u8> = volumes.files.iter().flat_map(|file| file.1.bytes.clone()).collect();
    assert_eq!(contents, b"0123456789\0\0\0abcde");
    assert_eq!(volumes.output.length, 18);
    // The length can be set while the position lies behind the end.
    volumes.output.seek(100, SEEK_SET).unwrap();
    volumes.set_size(20);
    assert_eq!((volumes.output.length, volumes.output.position), (20, 20));
    assert_eq!(volumes.files[2].1.bytes, b"de\0\0");
}

#[test]
fn copies_of_an_input_move_on_their_own() {
    let mut input = ZipInput::open(vec![4, 3]).unwrap();
    input.advance(5);
    let copy = input.copy();
    input.advance(1);
    assert_eq!((copy.position, input.position, copy.length), (5, 6, 7));
    assert_eq!(copy.read(9), ZipRead::At { index: 1, offset: 1, count: 2 });
}

#[test]
fn volumes_keep_their_names_through_resizing_and_writing() {
    let mut volumes = Volumes {
        output: VolumeOutput::new(Some("x.zip".to_owned()), 4),
        files: Vec::new(),
    };
    volumes.write(b"0123456789");
    volumes.set_size(5);
    assert_eq!(volumes.output.position, 5);
    volumes.write(b"ab");
    volumes.set_size(9);
    volumes.write(b"cd");
    let contents: Vec<u8> = volumes.files.iter().flat_map(|file| file.1.bytes.clone()).collect();
    assert_eq!(contents, b"01234abcd");
    assert_eq!(volumes.output.paths(), vec!["x.zip.001", "x.zip.002", "x.zip.003"]);
    let lengths: Vec<usize> = volumes.files.iter().map(|file| file.1.bytes.len()).collect();
    assert_eq!(lengths, vec![4, 4, 1]);
}
