use rad::kernel::loader::{accept_manifest, load_failure, LoadStage, HANDLE_DEADLINE_TICKS};
use rad::kernel::stream::{finish_fallible, finish_reader, read_start, Incoming, KernelStream, ReadStart, Received};

type Stream = KernelStream<(), (), ()>;

fn answer(r: ReadStart) -> Vec<u8> {
    match r {
        ReadStart::Answer(Ok(d)) => d,
        _ => panic!("expected bytes"),
    }
}

#[test]
fn an_oversized_chunk_is_held_back_not_discarded() {
    let mut incoming = Incoming::new(());
    assert_eq!(finish_reader(&mut incoming, 3, Received::Item(b"abcdefg".to_vec())), b"abc".to_vec());
    let mut stream: Stream = KernelStream::Reader(incoming);
    assert_eq!(answer(read_start(&mut stream, 2)), b"de".to_vec());
    assert_eq!(answer(read_start(&mut stream, 10)), b"fg".to_vec());
    assert!(matches!(read_start(&mut stream, 10), ReadStart::Wait));
}

#[test]
fn read_zero_is_refused_and_takes_nothing() {
    let mut incoming = Incoming::new(());
    assert!(matches!(finish_fallible(&mut incoming, 1, Received::Item(Ok(b"xy".to_vec()))), Ok(d) if d == b"x".to_vec()));
    let mut stream: Stream = KernelStream::Fallible(incoming);
    match read_start(&mut stream, 0) {
        ReadStart::Answer(Err(e)) => {
            assert_eq!(e.code, 400);
            assert_eq!(e.message, "read(0) requests no bytes");
        }
        _ => panic!("read(0) must be refused"),
    }
    assert_eq!(answer(read_start(&mut stream, 5)), b"y".to_vec());
}

#[test]
fn fallible_reads_report_failures_timeouts_and_the_end() {
    let mut incoming: Incoming<()> = Incoming::new(());
    let e = finish_fallible(&mut incoming, 4, Received::Item(Err("reset".to_string()))).unwrap_err();
    assert_eq!((e.code, e.message.as_str()), (502, "reset"));
    let e = finish_fallible(&mut incoming, 4, Received::TimedOut).unwrap_err();
    assert_eq!((e.code, e.message.as_str()), (504, "no data yet"));
    assert!(matches!(finish_fallible(&mut incoming, 4, Received::Disconnected), Ok(d) if d.is_empty()));
    let mut closed: Stream = KernelStream::Closed;
    assert!(answer(read_start(&mut closed, 4)).is_empty());
    let mut writer: Stream = KernelStream::Writer(());
    assert!(matches!(read_start(&mut writer, 4), ReadStart::Answer(Err(e)) if e.code == 400));
}

#[test]
fn module_loading_texts_and_deadline() {
    assert_eq!(load_failure(LoadStage::Load, "echo", "no such file"), "Failed to load module 'echo': no such file");
    assert_eq!(load_failure(LoadStage::Instantiate, "echo", "bad import"), "Failed to instantiate module 'echo': bad import");
    assert_eq!(load_failure(LoadStage::Manifest, "echo", "trap"), "Module 'echo' trapped in manifest(): trap");
    assert_eq!(accept_manifest("echo", "echo"), Ok(600));
    assert_eq!(HANDLE_DEADLINE_TICKS, 600);
    assert_eq!(accept_manifest("echo", "other"), Err("module configured as 'echo' declares itself 'other'".to_string()));
}

#[test]
fn a_read_of_a_missing_stream_checks_the_size_first() {
    let e = rad::kernel::stream::read_missing_stream(0, "gone");
    assert_eq!((e.code, e.message.as_str()), (400, "read(0) requests no bytes"));
    let e = rad::kernel::stream::read_missing_stream(8, "gone");
    assert_eq!((e.code, e.message.as_str()), (404, "no such stream: gone"));
    let e = rad::kernel::stream::write_failed("broken pipe");
    assert_eq!((e.code, e.message.as_str()), (500, "write failed: broken pipe"));
}
