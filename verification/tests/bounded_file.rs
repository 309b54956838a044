use bpt::constant::SMALL_FILE_MAX_SIZE;
use bpt::error::{AnonLocErr, IoError, IoErrorKind};
use bpt::window::{checked_signed_add, ensure_small, remaining_len, BoundedWindow, SeekOrigin};

/// A window over an in-memory file: the test stands in for the file the window's owner moves.
struct MemFile {
    data: Vec<u8>,
    w: BoundedWindow,
}

impl MemFile {
    fn create(data: &[u8]) -> MemFile {
        MemFile {
            data: data.to_vec(),
            w: BoundedWindow::from_len(data.len() as u64),
        }
    }

    fn with_parts(data: &[u8], lower: u64, upper: u64, pos: u64) -> MemFile {
        MemFile {
            data: data.to_vec(),
            w: BoundedWindow::from_parts(lower, upper, pos).unwrap(),
        }
    }

    fn read(&mut self, buf: &mut [u8]) -> usize {
        let allowed = self.w.read_len(buf.len());
        let pos = self.w.pos() as usize;
        let available = self.data.len().saturating_sub(pos);
        let n = allowed.min(available);
        buf[..n].copy_from_slice(&self.data[pos..pos + n]);
        self.w.advance(n);
        n
    }

    fn read_exact(&mut self, buf: &mut [u8]) {
        assert_eq!(self.read(buf), buf.len());
    }

    fn read_to_end(&mut self) -> Vec<u8> {
        let mut out = Vec::new();
        let mut chunk = [0u8; 4096];
        loop {
            let n = self.read(&mut chunk);
            if n == 0 {
                return out;
            }
            out.extend_from_slice(&chunk[..n]);
        }
    }

    fn read_small_file_bytes(&mut self) -> Result<Vec<u8>, AnonLocErr> {
        self.w.small_read_limit()?;
        Ok(self.read_to_end())
    }

    fn read_small_file_string(&mut self) -> Result<String, AnonLocErr> {
        let bytes = self.read_small_file_bytes()?;
        Ok(String::from_utf8(bytes).unwrap())
    }

    fn increase_lower_bound_by(&mut self, offset: u64) -> Result<(), AnonLocErr> {
        self.w.increase_lower_bound_by(offset).map(|_| ())
    }

    fn decrease_upper_bound_by(&mut self, offset: u64) -> Result<(), AnonLocErr> {
        self.w.decrease_upper_bound_by(offset).map(|_| ())
    }

    fn increase_upper_bound_by(&mut self, offset: u64) -> Result<(), AnonLocErr> {
        self.w.increase_upper_bound_by(offset)
    }

    fn seek(&mut self, from: SeekOrigin) -> Result<u64, IoError> {
        self.w.seek(from)
    }

    fn lower(&self) -> u64 {
        self.w.lower()
    }

    fn upper(&self) -> u64 {
        self.w.upper()
    }

    fn pos(&self) -> u64 {
        self.w.pos()
    }
}

fn is_invalid_input(r: &Result<(), AnonLocErr>) -> bool {
    matches!(r, Err(AnonLocErr::Seek(e)) if e.kind == IoErrorKind::InvalidInput)
}

const DATA: &[u8] = b"abcdefghijklmnopqrstuvwxyz";

#[test]
fn test_read() {
    let mut file = MemFile::create(DATA);
    file.increase_lower_bound_by(5).unwrap();
    file.decrease_upper_bound_by(11).unwrap();

    let mut buf = [0u8; 5];
    assert_eq!(file.read(&mut buf), 5);
    assert_eq!(&buf, b"fghij");

    let mut buf = [0u8; 5];
    assert_eq!(file.read(&mut buf), 5);
    assert_eq!(&buf, b"klmno");

    let mut buf = [0u8; 5];
    assert_eq!(file.read(&mut buf), 0);
    assert_eq!(&buf, &[0u8; 5]);
}

#[test]
fn test_read_past_upper_bound() {
    let mut file = MemFile::create(DATA);
    file.increase_lower_bound_by(5).unwrap();
    file.decrease_upper_bound_by(11).unwrap();

    let mut buf = [0u8; 12];
    assert_eq!(file.read(&mut buf), 10);
    assert_eq!(&buf[..10], b"fghijklmno");
    assert_eq!(&buf[10..], &[0u8; 2]);
}

#[test]
fn test_read_no_bounds() {
    let mut file = MemFile::create(DATA);

    let mut buf = [0u8; 30];
    assert_eq!(file.read(&mut buf), 26);
    assert_eq!(&buf[..26], DATA);
    assert_eq!(&buf[26..], &[0u8; 4]);
}

#[test]
fn test_read_lower_beyond_end() {
    let mut file = MemFile::create(DATA);

    let result = file.increase_lower_bound_by(30);
    assert!(is_invalid_input(&result));
}

#[test]
fn test_seek_start() {
    let mut file = MemFile::create(DATA);
    file.increase_lower_bound_by(5).unwrap();
    file.decrease_upper_bound_by(11).unwrap();

    let new_pos = file.seek(SeekOrigin::Start(3)).unwrap();
    assert_eq!(new_pos, 3);

    let mut buf = [0u8; 3];
    assert_eq!(file.read(&mut buf), 3);
    assert_eq!(&buf, b"ijk");
}

#[test]
fn test_seek_end() {
    let mut file = MemFile::create(DATA);
    file.increase_lower_bound_by(5).unwrap();
    file.decrease_upper_bound_by(11).unwrap();

    let new_pos = file.seek(SeekOrigin::End(-3)).unwrap();
    assert_eq!(new_pos, 7);

    let mut buf = [0u8; 3];
    assert_eq!(file.read(&mut buf), 3);
    assert_eq!(&buf, b"mno");
}

#[test]
fn test_seek_current() {
    let mut file = MemFile::create(DATA);
    file.increase_lower_bound_by(5).unwrap();
    file.decrease_upper_bound_by(11).unwrap();

    let mut buf = [0u8; 3];
    assert_eq!(file.read(&mut buf), 3);
    assert_eq!(&buf, b"fgh");

    let new_pos = file.seek(SeekOrigin::Current(-1)).unwrap();
    assert_eq!(new_pos, 2);

    let mut buf = [0u8; 3];
    assert_eq!(file.read(&mut buf), 3);
    assert_eq!(&buf, b"hij");
}

#[test]
fn test_seek_out_of_bounds() {
    let mut file = MemFile::create(DATA);
    file.increase_lower_bound_by(5).unwrap();
    file.decrease_upper_bound_by(11).unwrap();

    let result = file.seek(SeekOrigin::Start(11));
    assert!(result.is_err());
    assert_eq!(result.unwrap_err().kind, IoErrorKind::InvalidInput);

    let result = file.seek(SeekOrigin::End(1));
    assert!(result.is_err());
    assert_eq!(result.unwrap_err().kind, IoErrorKind::InvalidInput);

    let result = file.seek(SeekOrigin::Current(-6));
    assert!(result.is_err());
    assert_eq!(result.unwrap_err().kind, IoErrorKind::InvalidInput);
}

#[test]
fn test_increase_lower_bound_by() {
    let mut file = MemFile::create(DATA);
    file.increase_lower_bound_by(5).unwrap();
    file.decrease_upper_bound_by(11).unwrap();

    file.increase_lower_bound_by(3).unwrap();

    let expected_lower = 5 + 3;
    let expected_upper = 15;
    assert_eq!(file.lower(), expected_lower);
    assert_eq!(file.upper(), expected_upper);
    assert_eq!(file.pos(), expected_lower);

    let mut buf = [0u8; 10];
    assert_eq!(file.read(&mut buf), 15 - 5 - 3);
    assert_eq!(&buf[..7], b"ijklmno");
    assert_eq!(&buf[7..], &[0u8; 3]);
}

#[test]
fn test_decrease_upper_bound_by_clamps_pos() {
    let mut file = MemFile::create(DATA);
    file.increase_lower_bound_by(5).unwrap();
    file.decrease_upper_bound_by(11).unwrap();

    file.seek(SeekOrigin::Start(8)).unwrap();

    file.decrease_upper_bound_by(3).unwrap();

    assert_eq!(file.lower(), 5);
    assert_eq!(file.upper(), 12);
    assert_eq!(file.pos(), 12);

    let mut buf = [0u8; 1];
    assert_eq!(file.read(&mut buf), 0);

    file.seek(SeekOrigin::Start(0)).unwrap();
    let mut buf = [0u8; 10];
    assert_eq!(file.read(&mut buf), 7);
    assert_eq!(&buf[..7], b"fghijkl");
}

#[test]
fn test_decrease_upper_bound_by_preserves_valid_pos() {
    let mut file = MemFile::create(DATA);
    file.increase_lower_bound_by(5).unwrap();
    file.decrease_upper_bound_by(11).unwrap();

    file.seek(SeekOrigin::Start(3)).unwrap();
    assert_eq!(file.pos(), 8);

    file.decrease_upper_bound_by(3).unwrap();
    assert_eq!(file.lower(), 5);
    assert_eq!(file.upper(), 12);
    assert_eq!(file.pos(), 8);

    let mut buf = [0u8; 10];
    assert_eq!(file.read(&mut buf), 4);
    assert_eq!(&buf[..4], b"ijkl");
}

#[test]
fn test_decrease_upper_bound_by_underflow_errors() {
    let mut file = MemFile::create(DATA);

    let result = file.decrease_upper_bound_by(30);
    assert!(is_invalid_input(&result));
    assert_eq!(file.lower(), 0);
    assert_eq!(file.upper(), DATA.len() as u64);
    assert_eq!(file.pos(), 0);
}

#[test]
fn test_checked_signed_add_large_base() {
    let base = i64::MAX as u64 + 90;
    assert_eq!(checked_signed_add(base, -10), Some(base - 10));
    assert_eq!(checked_signed_add(base, 10), Some(base + 10));
    assert_eq!(checked_signed_add(4, -5), None);
    assert_eq!(checked_signed_add(u64::MAX - 1, 2), None);
    assert_eq!(checked_signed_add(i64::MAX as u64 + 1, i64::MIN), Some(0));
    assert_eq!(
        checked_signed_add(u64::MAX, i64::MIN),
        Some(u64::MAX - (1u64 << 63))
    );
}

#[test]
fn test_increase_upper_bound_by_success() {
    let mut file = MemFile::create(DATA);
    file.increase_lower_bound_by(5).unwrap();
    file.decrease_upper_bound_by(11).unwrap();

    file.increase_upper_bound_by(3).unwrap();
    assert_eq!(file.lower(), 5);
    assert_eq!(file.upper(), 18);
    assert_eq!(file.pos(), 5);

    let mut buf = [0u8; 16];
    assert_eq!(file.read(&mut buf), 13);
    assert_eq!(&buf[..13], b"fghijklmnopqr");
}

#[test]
fn test_increase_upper_bound_by_overflow_errors() {
    let mut file = MemFile::with_parts(b"abc", 1, u64::MAX - 1, 1);

    let result = file.increase_upper_bound_by(2);
    assert!(is_invalid_input(&result));
    assert_eq!(file.lower(), 1);
    assert_eq!(file.upper(), u64::MAX - 1);
    assert_eq!(file.pos(), 1);
}

#[test]
fn test_decrease_upper_bound_by_crosses_lower_errors() {
    let mut file = MemFile::with_parts(b"abc", 10, 20, 10);

    let result = file.decrease_upper_bound_by(11);
    assert!(is_invalid_input(&result));
    assert_eq!(file.lower(), 10);
    assert_eq!(file.upper(), 20);
    assert_eq!(file.pos(), 10);
}

#[test]
fn test_increase_lower_bound_by_overflow_errors() {
    let mut file = MemFile::with_parts(b"abc", u64::MAX, u64::MAX, u64::MAX);

    let result = file.increase_lower_bound_by(1);
    assert!(is_invalid_input(&result));
    assert_eq!(file.lower(), u64::MAX);
    assert_eq!(file.upper(), u64::MAX);
    assert_eq!(file.pos(), u64::MAX);
}

#[test]
fn test_seek_start_at_upper_bound_is_allowed() {
    let mut file = MemFile::create(DATA);
    file.increase_lower_bound_by(5).unwrap();
    file.decrease_upper_bound_by(11).unwrap();

    let pos = file.seek(SeekOrigin::Start(10)).unwrap();
    assert_eq!(pos, 10);

    let mut buf = [0u8; 1];
    assert_eq!(file.read(&mut buf), 0);
}

#[test]
fn test_seek_current_forward_out_of_bounds_errors() {
    let mut file = MemFile::create(DATA);
    file.increase_lower_bound_by(5).unwrap();
    file.decrease_upper_bound_by(11).unwrap();

    let result = file.seek(SeekOrigin::Current(11));
    assert!(result.is_err());
    assert_eq!(result.unwrap_err().kind, IoErrorKind::InvalidInput);
}

#[test]
fn test_seek_start_overflow_errors() {
    let mut file = MemFile::with_parts(b"abc", u64::MAX - 1, u64::MAX, u64::MAX - 1);

    let result = file.seek(SeekOrigin::Start(2));
    assert!(result.is_err());
    let err = result.unwrap_err();
    assert_eq!(err.kind, IoErrorKind::InvalidInput);
    assert_eq!(err.message, "Seek position overflow");
}

#[test]
fn test_zero_width_range_read_and_seek() {
    let mut file = MemFile::create(DATA);
    file.increase_lower_bound_by(5).unwrap();
    file.decrease_upper_bound_by(21).unwrap();
    assert_eq!(file.lower(), 5);
    assert_eq!(file.upper(), 5);

    let mut buf = [0u8; 3];
    assert_eq!(file.read(&mut buf), 0);

    assert_eq!(file.seek(SeekOrigin::Start(0)).unwrap(), 0);
    assert_eq!(file.seek(SeekOrigin::End(0)).unwrap(), 0);
    assert_eq!(file.seek(SeekOrigin::Current(0)).unwrap(), 0);

    let result = file.seek(SeekOrigin::Start(1));
    assert!(result.is_err());
    assert_eq!(result.unwrap_err().kind, IoErrorKind::InvalidInput);
}

#[test]
fn test_seek_end_positive_overflow_errors() {
    let mut file = MemFile::with_parts(b"abc", 0, u64::MAX - 1, 0);

    let result = file.seek(SeekOrigin::End(2));
    assert!(result.is_err());
    assert_eq!(result.unwrap_err().kind, IoErrorKind::InvalidInput);
}

#[test]
fn test_seek_current_positive_overflow_errors() {
    let mut file = MemFile::with_parts(b"abc", 0, u64::MAX, u64::MAX - 1);

    let result = file.seek(SeekOrigin::Current(2));
    assert!(result.is_err());
    assert_eq!(result.unwrap_err().kind, IoErrorKind::InvalidInput);
}

#[test]
fn test_read_empty_buffer_does_not_move_position() {
    let mut file = MemFile::create(DATA);
    file.increase_lower_bound_by(5).unwrap();
    file.decrease_upper_bound_by(11).unwrap();
    file.seek(SeekOrigin::Start(2)).unwrap();

    let pos_before = file.pos();
    assert_eq!(file.read(&mut []), 0);
    assert_eq!(file.pos(), pos_before);
}

#[test]
fn test_increase_lower_bound_by_preserves_valid_pos() {
    let mut file = MemFile::create(DATA);

    file.seek(SeekOrigin::Start(10)).unwrap();
    assert_eq!(file.pos(), 10);

    file.increase_lower_bound_by(5).unwrap();
    assert_eq!(file.lower(), 5);
    assert_eq!(file.upper(), 26);
    assert_eq!(file.pos(), 10);

    let mut buf = [0u8; 3];
    assert_eq!(file.read(&mut buf), 3);
    assert_eq!(&buf, b"klm");
}

#[test]
fn test_decrease_upper_bound_by_pos_at_new_upper() {
    let mut file = MemFile::create(DATA);
    file.increase_lower_bound_by(5).unwrap();
    file.decrease_upper_bound_by(11).unwrap();

    file.seek(SeekOrigin::Start(7)).unwrap();
    assert_eq!(file.pos(), 12);

    file.decrease_upper_bound_by(3).unwrap();
    assert_eq!(file.lower(), 5);
    assert_eq!(file.upper(), 12);
    assert_eq!(file.pos(), 12);

    let mut buf = [0u8; 1];
    assert_eq!(file.read(&mut buf), 0);
}

#[test]
fn test_increase_lower_bound_to_equal_upper() {
    let mut file = MemFile::create(DATA);
    file.decrease_upper_bound_by(16).unwrap();

    file.increase_lower_bound_by(10).unwrap();
    assert_eq!(file.lower(), 10);
    assert_eq!(file.upper(), 10);

    let mut buf = [0u8; 1];
    assert_eq!(file.read(&mut buf), 0);
}

#[test]
fn test_decrease_upper_bound_to_equal_lower() {
    let mut file = MemFile::create(DATA);
    file.increase_lower_bound_by(10).unwrap();

    file.decrease_upper_bound_by(16).unwrap();
    assert_eq!(file.lower(), 10);
    assert_eq!(file.upper(), 10);
    assert_eq!(file.pos(), 10);

    let mut buf = [0u8; 1];
    assert_eq!(file.read(&mut buf), 0);
}

#[test]
fn test_seek_error_preserves_pos() {
    let mut file = MemFile::create(DATA);
    file.increase_lower_bound_by(5).unwrap();
    file.decrease_upper_bound_by(11).unwrap();

    file.seek(SeekOrigin::Start(4)).unwrap();
    assert_eq!(file.pos(), 9);

    assert!(file.seek(SeekOrigin::Start(11)).is_err());
    assert_eq!(file.pos(), 9);

    assert!(file.seek(SeekOrigin::End(1)).is_err());
    assert_eq!(file.pos(), 9);

    assert!(file.seek(SeekOrigin::Current(-5)).is_err());
    assert_eq!(file.pos(), 9);

    let mut buf = [0u8; 3];
    assert_eq!(file.read(&mut buf), 3);
    assert_eq!(&buf, b"jkl");
}

#[test]
fn test_read_single_byte_range() {
    let mut file = MemFile::create(DATA);
    file.increase_lower_bound_by(5).unwrap();
    file.decrease_upper_bound_by(20).unwrap();

    assert_eq!(file.lower(), 5);
    assert_eq!(file.upper(), 6);

    let mut buf = [0u8; 5];
    assert_eq!(file.read(&mut buf), 1);
    assert_eq!(buf[0], b'f');

    assert_eq!(file.read(&mut buf), 0);

    file.seek(SeekOrigin::Start(0)).unwrap();
    let mut buf = [0u8; 1];
    assert_eq!(file.read(&mut buf), 1);
    assert_eq!(buf[0], b'f');
}

#[test]
fn test_sequential_bound_adjustments_with_reads() {
    let mut file = MemFile::create(DATA);

    file.increase_lower_bound_by(3).unwrap();
    file.decrease_upper_bound_by(3).unwrap();

    let mut buf = [0u8; 3];
    file.read_exact(&mut buf);
    assert_eq!(&buf, b"def");

    file.increase_lower_bound_by(3).unwrap();
    assert_eq!(file.pos(), 6);

    file.read_exact(&mut buf);
    assert_eq!(&buf, b"ghi");

    file.decrease_upper_bound_by(5).unwrap();
    assert_eq!(file.pos(), 9);

    file.read_exact(&mut buf);
    assert_eq!(&buf, b"jkl");

    file.increase_upper_bound_by(3).unwrap();
    assert_eq!(file.pos(), 12);

    let mut buf = [0u8; 20];
    assert_eq!(file.read(&mut buf), 9);
    assert_eq!(&buf[..9], b"mnopqrstu");
}

#[test]
fn test_read_small_file_bytes_respects_bounded_window() {
    let mut file = MemFile::create(DATA);
    file.increase_lower_bound_by(5).unwrap();
    file.decrease_upper_bound_by(11).unwrap();

    let out = file.read_small_file_bytes().unwrap();
    assert_eq!(out, b"fghijklmno");
}

#[test]
fn test_read_small_file_string_respects_current_position() {
    let mut file = MemFile::create(DATA);
    file.increase_lower_bound_by(5).unwrap();
    file.decrease_upper_bound_by(11).unwrap();
    file.seek(SeekOrigin::Start(2)).unwrap();

    let out = file.read_small_file_string().unwrap();
    assert_eq!(out, "hijklmno");
}

#[test]
fn test_read_small_file_bytes_uses_bounded_remaining_len_for_size_check() {
    let data = vec![b'x'; SMALL_FILE_MAX_SIZE + 5];
    let mut file = MemFile::create(&data);

    file.increase_lower_bound_by(SMALL_FILE_MAX_SIZE as u64)
        .unwrap();

    let out = file.read_small_file_bytes().unwrap();
    assert_eq!(out.len(), 5);
    assert!(out.iter().all(|b| *b == b'x'));
}

#[test]
fn test_read_small_file_bytes_rejects_oversized_bounded_window() {
    let data = vec![b'x'; SMALL_FILE_MAX_SIZE + 1];
    let mut file = MemFile::create(&data);

    let err = file.read_small_file_bytes().unwrap_err();
    assert!(matches!(err, AnonLocErr::FileTooLarge(SMALL_FILE_MAX_SIZE)));
}

#[test]
fn window_constructor_rejects_cursor_outside_bounds() {
    assert!(BoundedWindow::from_parts(5, 10, 4).is_none());
    assert!(BoundedWindow::from_parts(5, 10, 11).is_none());
    assert!(BoundedWindow::from_parts(10, 5, 7).is_none());
    assert!(BoundedWindow::from_parts(5, 10, 10).is_some());
}

#[test]
fn bound_changes_report_whether_the_cursor_moved() {
    let mut w = BoundedWindow::from_len(26);
    assert_eq!(w.increase_lower_bound_by(5).unwrap(), true);
    assert_eq!(w.seek(SeekOrigin::End(0)).unwrap(), 21);
    assert_eq!(w.decrease_upper_bound_by(1).unwrap(), true);
    assert_eq!(w.pos(), 25);
    assert_eq!(w.decrease_upper_bound_by(1).unwrap(), true);
    assert_eq!(w.seek(SeekOrigin::Start(0)).unwrap(), 0);
    assert_eq!(w.decrease_upper_bound_by(1).unwrap(), false);
    assert_eq!(w.remaining(), 18);
}

#[test]
fn ensure_small_accepts_the_boundary_size() {
    assert!(ensure_small(SMALL_FILE_MAX_SIZE as u64).is_ok());
    assert!(matches!(
        ensure_small(SMALL_FILE_MAX_SIZE as u64 + 1),
        Err(AnonLocErr::FileTooLarge(SMALL_FILE_MAX_SIZE))
    ));
    assert_eq!(remaining_len(10, 3), 7);
    assert_eq!(remaining_len(3, 10), 0);
}

#[test]
fn test_from_file_resets_seek_to_start() {
    let data = b"abcdefghijklmnopqrstuvwxyz";
    let mut window = BoundedWindow::from_len(data.len() as u64);
    assert_eq!(window.pos(), 0);
    assert_eq!(window.lower(), 0);
    assert_eq!(window.upper(), data.len() as u64);

    let n = window.read_len(3);
    assert_eq!(n, 3);
    let start = window.pos() as usize;
    window.advance(n);
    assert_eq!(&data[start..start + n], b"abc");
}
