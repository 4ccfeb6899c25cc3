use std::cell::RefCell;

use magicpak::base::trace::{
    dynamic_outcome, first_stop, next_stop, on_first_stop, on_next_stop, syscall, wait_event, Exit,
    Registers, StringReader, Syscall, SyscallHandler, TraceStart, TraceStep, WaitEvent, SIGTRAP,
    SYS_OPEN, SYS_OPENAT,
};
use magicpak::base::Error;

const STOPPED_BY_TRAP: i32 = 0x057f;
const STOPPED_AT_SYSCALL: i32 = 0x857f;
const STOPPED_BY_SIGSTOP: i32 = 0x137f;
const KILLED: i32 = 0x0009;

fn exited(code: i32) -> i32 {
    code << 8
}

/// The memory of a traced process that holds one text at an address.
struct Memory {
    at: u64,
    bytes: Vec<u8>,
}

impl Memory {
    fn word(&self, address: u64) -> u32 {
        let mut word = [0u8; 4];
        for (i, b) in word.iter_mut().enumerate() {
            let offset = (address - self.at) as usize + i;
            *b = self.bytes.get(offset).copied().unwrap_or(0x55);
        }
        u32::from_le_bytes(word)
    }

    fn read(&self, address: u64) -> Vec<u8> {
        let mut reader = StringReader::new(address);
        while !reader.is_done() {
            reader.push(self.word(reader.address()));
        }
        reader.into_bytes()
    }
}

#[test]
fn test_trace() {
    // what the tracer sees of a child that runs `cat` on a file
    let test_path = b"/tmp/.tmpQ5/test".to_vec();
    let mut text = test_path.clone();
    text.push(0);
    let memory = Memory { at: 0x7ffd_0000_1000, bytes: text };
    let pid = 4711;

    let paths = RefCell::new(Vec::new());
    let handler = SyscallHandler {
        open: |pathname: Vec<u8>, _: i32| paths.borrow_mut().push(pathname),
        openat: |_: i32, pathname: Vec<u8>, _: i32| paths.borrow_mut().push(pathname),
    };

    assert_eq!(first_stop(pid, STOPPED_BY_TRAP), Some(Ok(TraceStart::Trace)));
    let stops = [
        (STOPPED_AT_SYSCALL, Registers { orig_rax: 12, rdi: 0, rsi: 0, rdx: 0 }),
        (STOPPED_AT_SYSCALL, Registers { orig_rax: 12, rdi: 0, rsi: 0, rdx: 0 }),
        (
            STOPPED_AT_SYSCALL,
            Registers { orig_rax: 257, rdi: 0xffff_ff9c, rsi: memory.at, rdx: 0 },
        ),
        (STOPPED_BY_SIGSTOP, Registers { orig_rax: 0, rdi: 0, rsi: 0, rdx: 0 }),
        (exited(0), Registers { orig_rax: 0, rdi: 0, rsi: 0, rdx: 0 }),
    ];
    let mut end = None;
    for (status, regs) in stops {
        match next_stop(pid, status).unwrap().unwrap() {
            TraceStep::Finished(exit) => {
                end = Some(exit);
                break;
            }
            TraceStep::Resume(_) => {}
            TraceStep::Syscall => {
                let call = syscall(&regs);
                let pathname = match call {
                    Syscall::Open { pathname, .. } | Syscall::OpenAt { pathname, .. } => {
                        memory.read(pathname)
                    }
                    Syscall::Other => Vec::new(),
                };
                handler.handle(call, pathname);
            }
        }
    }
    assert_eq!(end, Some(Exit::Status(0)));
    assert_eq!(dynamic_outcome(end.unwrap()), Ok(()));

    assert_eq!(true, paths.into_inner().iter().any(|p| *p == test_path));
}

#[test]
fn a_status_of_waitpid_is_taken_apart() {
    assert_eq!(wait_event(1, exited(0)), Some(Ok(WaitEvent::Exited(0))));
    assert_eq!(wait_event(1, exited(3)), Some(Ok(WaitEvent::Exited(3))));
    assert_eq!(wait_event(1, KILLED), Some(Ok(WaitEvent::Signaled(9))));
    assert_eq!(wait_event(1, 0x0002), Some(Ok(WaitEvent::Signaled(2))));
    assert_eq!(wait_event(1, STOPPED_BY_TRAP), Some(Ok(WaitEvent::Stopped(SIGTRAP))));
    assert_eq!(wait_event(1, STOPPED_BY_SIGSTOP), Some(Ok(WaitEvent::Stopped(19))));
    assert_eq!(wait_event(1, STOPPED_AT_SYSCALL), Some(Ok(WaitEvent::PtraceSyscall)));
    assert_eq!(wait_event(1, 0x1057f), Some(Ok(WaitEvent::PtraceEvent)));
    assert_eq!(wait_event(1, 0xffff), Some(Ok(WaitEvent::Continued)));
}

#[test]
fn a_status_that_means_nothing_is_not_taken_apart() {
    assert_eq!(wait_event(1, 0x00ff), None);
    assert_eq!(wait_event(1, 0x12ff), None);
    assert_eq!(first_stop(1, 0x00ff), None);
    assert_eq!(next_stop(1, 0x00ff), None);
}

#[test]
fn a_status_that_names_no_signal_is_an_error() {
    // a stop by the signal 100, which there is not
    assert!(matches!(wait_event(1, 0x647f), Some(Err(Error::IO(_)))));
    assert!(matches!(next_stop(1, 0x647f), Some(Err(Error::IO(_)))));
    assert!(matches!(first_stop(1, 0x647f), Some(Err(Error::IO(_)))));
}

#[test]
fn the_first_stop_starts_the_trace_or_ends_it() {
    assert_eq!(first_stop(1, STOPPED_BY_TRAP), Some(Ok(TraceStart::Trace)));
    assert_eq!(
        first_stop(1, STOPPED_BY_SIGSTOP),
        Some(Ok(TraceStart::Finished(Exit::Stopped(19))))
    );
    assert_eq!(first_stop(1, KILLED), Some(Ok(TraceStart::Finished(Exit::Signal(9)))));
    assert_eq!(first_stop(1, exited(1)), Some(Ok(TraceStart::Finished(Exit::Status(1)))));
    assert_eq!(first_stop(1, STOPPED_AT_SYSCALL), None);
    assert_eq!(first_stop(1, 0xffff), None);
    assert_eq!(on_first_stop(WaitEvent::Stopped(5)), TraceStart::Trace);
    assert_eq!(on_first_stop(WaitEvent::Exited(0)), TraceStart::Finished(Exit::Status(0)));
}

#[test]
fn a_later_stop_is_a_system_call_a_signal_or_the_end() {
    assert_eq!(next_stop(1, STOPPED_AT_SYSCALL), Some(Ok(TraceStep::Syscall)));
    assert_eq!(next_stop(1, STOPPED_BY_TRAP), Some(Ok(TraceStep::Resume(5))));
    assert_eq!(next_stop(1, STOPPED_BY_SIGSTOP), Some(Ok(TraceStep::Resume(19))));
    assert_eq!(next_stop(1, KILLED), Some(Ok(TraceStep::Finished(Exit::Signal(9)))));
    assert_eq!(next_stop(1, exited(2)), Some(Ok(TraceStep::Finished(Exit::Status(2)))));
    assert_eq!(next_stop(1, 0xffff), None);
    assert_eq!(next_stop(1, 0x1057f), None);
    assert_eq!(on_next_stop(WaitEvent::PtraceSyscall), TraceStep::Syscall);
    assert_eq!(on_next_stop(WaitEvent::Signaled(11)), TraceStep::Finished(Exit::Signal(11)));
}

#[test]
fn the_end_of_the_traced_process_decides() {
    assert_eq!(dynamic_outcome(Exit::Status(0)), Ok(()));
    assert_eq!(dynamic_outcome(Exit::Status(2)), Err(Error::DynamicFailed(2)));
    assert_eq!(dynamic_outcome(Exit::Signal(11)), Err(Error::DynamicSignaled(11)));
    assert_eq!(dynamic_outcome(Exit::Stopped(19)), Err(Error::DynamicSignaled(19)));
}

#[test]
fn open_and_openat_are_told_from_other_calls() {
    assert_eq!(SYS_OPEN, 2);
    assert_eq!(SYS_OPENAT, 257);
    assert_eq!(
        syscall(&Registers { orig_rax: 2, rdi: 0x1000, rsi: 0x8_0000_0241, rdx: 0o644 }),
        Syscall::Open { pathname: 0x1000, flags: 0x241 }
    );
    assert_eq!(
        syscall(&Registers { orig_rax: 257, rdi: 0xffff_ffff_ffff_ff9c, rsi: 0x2000, rdx: 0x80000 }),
        Syscall::OpenAt { dirfd: -100, pathname: 0x2000, flags: 0x80000 }
    );
    assert_eq!(
        syscall(&Registers { orig_rax: 257, rdi: 3, rsi: 0x2000, rdx: 0xffff_ffff }),
        Syscall::OpenAt { dirfd: 3, pathname: 0x2000, flags: -1 }
    );
    assert_eq!(syscall(&Registers { orig_rax: 0, rdi: 1, rsi: 2, rdx: 3 }), Syscall::Other);
    assert_eq!(
        syscall(&Registers { orig_rax: u64::MAX, rdi: 1, rsi: 2, rdx: 3 }),
        Syscall::Other
    );
}

#[test]
fn a_text_is_read_word_by_word() {
    let mut reader = StringReader::new(0x1000);
    assert!(!reader.is_done());
    assert_eq!(reader.address(), 0x1000);
    reader.push(u32::from_le_bytes(*b"/etc"));
    assert_eq!(reader.address(), 0x1004);
    reader.push(u32::from_le_bytes(*b"/mag"));
    reader.push(u32::from_le_bytes(*b"ic\0X"));
    assert!(reader.is_done());
    reader.push(u32::from_le_bytes(*b"more"));
    assert_eq!(reader.into_bytes(), b"/etc/magic".to_vec());
}

#[test]
fn a_text_ends_at_the_first_zero_byte() {
    for (text, words) in [("", 1), ("a", 1), ("abc", 1), ("abcd", 2), ("abcdefg", 2), ("abcdefgh", 3)] {
        let mut bytes = text.as_bytes().to_vec();
        bytes.push(0);
        let memory = Memory { at: 64, bytes };
        let mut reader = StringReader::new(64);
        let mut read = 0;
        while !reader.is_done() {
            reader.push(memory.word(reader.address()));
            read += 1;
        }
        assert_eq!(read, words);
        assert_eq!(reader.into_bytes(), text.as_bytes().to_vec());
    }
    let mut reader = StringReader::new(u64::MAX - 3);
    reader.push(u32::from_le_bytes(*b"wrap"));
    assert_eq!(reader.address(), 0);
}

#[test]
fn the_handlers_get_the_paths_in_order() {
    let seen = RefCell::new(Vec::new());
    let handler = SyscallHandler {
        open: |pathname: Vec<u8>, flags: i32| seen.borrow_mut().push((None, pathname, flags)),
        openat: |dirfd: i32, pathname: Vec<u8>, flags: i32| {
            seen.borrow_mut().push((Some(dirfd), pathname, flags))
        },
    };
    handler.handle(Syscall::Open { pathname: 1, flags: 7 }, b"/a".to_vec());
    handler.handle(Syscall::Other, b"/ignored".to_vec());
    handler.handle(Syscall::OpenAt { dirfd: -100, pathname: 2, flags: 0 }, b"/b".to_vec());
    assert_eq!(
        seen.into_inner(),
        vec![(None, b"/a".to_vec(), 7), (Some(-100), b"/b".to_vec(), 0)]
    );
}
