//! The decisions of the tracer that watches which files a process opens.
//!
//! The tracer waits for the traced process, looks at why it stopped, and
//! lets it run on. Where it stopped at the entry of `open` or `openat`, the
//! path that is opened is read from the memory of the process, word by word,
//! and handed to a handler. Everything that touches the process is done by
//! the caller; what a stop means and what follows from it is decided here.

use crate::base::text::{lemma_run_len_bound, lemma_run_len_holds, lemma_run_len_is, run_len};
use crate::base::{Error, ErrorView};
use nix::sys::wait::WaitStatus;
use vstd::prelude::*;
use vstd::slice::*;

verus! {

/// The number of the system call `open`.
pub const SYS_OPEN: u64 = 2;

/// The number of the system call `openat`.
pub const SYS_OPENAT: u64 = 257;

/// The number of the signal that stops a traced process.
pub const SIGTRAP: i32 = 5;

/// Why a wait for the traced process came back.
#[derive(Debug, Clone, Copy, PartialEq, Eq)]
pub enum WaitEvent {
    /// The process ended with an exit status.
    Exited(i32),
    /// The process was ended by a signal.
    Signaled(i32),
    /// The process was stopped by a signal.
    Stopped(i32),
    /// The process was stopped by an event of the tracer.
    PtraceEvent,
    /// The process was stopped at a system call.
    PtraceSyscall,
    /// The process runs again.
    Continued,
    /// Nothing has changed.
    StillAlive,
}

/// How a traced process ended.
#[derive(Debug, Clone, Copy, PartialEq, Eq)]
pub enum Exit {
    /// With an exit status.
    Status(i32),
    /// By a signal.
    Signal(i32),
    /// It did not end: it was stopped by a signal before it was traced.
    Stopped(i32),
}

/// What the tracer does after the first wait.
#[derive(Debug, Clone, Copy, PartialEq, Eq)]
pub enum TraceStart {
    /// The process waits to be traced: the options are set and it is let
    /// run to its next system call.
    Trace,
    /// The process is not traced: its output is collected.
    Finished(Exit),
}

/// What the tracer does after a later wait.
#[derive(Debug, Clone, Copy, PartialEq, Eq)]
pub enum TraceStep {
    /// The process has ended: its output is collected.
    Finished(Exit),
    /// The process was stopped by a signal: the signal is noted and the
    /// process is let run on, without the signal.
    Resume(i32),
    /// The process stopped at a system call: its registers are looked at,
    /// and it is let run on.
    Syscall,
}

/// Whether a status of `waitpid` is one that can be taken apart: it tells
/// of an exit, of a signal, of a stop or of a continuation.
pub open spec fn spec_decodable(status: i32) -> bool {
    status & 0xff != 0xff || status == 0xffff
}

/// What `nix` makes of a status of `waitpid`: why the wait came back, or
/// nothing for a status that names no signal.
pub uninterp spec fn wait_status(pid: i32, status: i32) -> Option<WaitEvent>;

/// Takes a status of `waitpid` apart with `nix::sys::wait::WaitStatus::from_raw`
/// and tells the variants of the result apart; a signal is given as its
/// number. On the same values the result is the same, and it is named. For
/// a status that names no signal the error comes back as the text that the
/// operating system has for it, of which nothing is claimed. A status that
/// `requires` leaves out makes the outside function stop the program.
#[verifier::external_body]
fn decode_wait_status(pid: i32, status: i32) -> (r: Result<WaitEvent, Vec<u8>>)
    requires
        spec_decodable(status),
    ensures
        match r {
            Ok(event) => wait_status(pid, status) == Some(event),
            Err(_) => wait_status(pid, status) is None,
        },
{
    match WaitStatus::from_raw(nix::unistd::Pid::from_raw(pid), status) {
        Ok(WaitStatus::Exited(_, code)) => Ok(WaitEvent::Exited(code)),
        Ok(WaitStatus::Signaled(_, signal, _)) => Ok(WaitEvent::Signaled(signal as i32)),
        Ok(WaitStatus::Stopped(_, signal)) => Ok(WaitEvent::Stopped(signal as i32)),
        Ok(WaitStatus::PtraceEvent(..)) => Ok(WaitEvent::PtraceEvent),
        Ok(WaitStatus::PtraceSyscall(_)) => Ok(WaitEvent::PtraceSyscall),
        Ok(WaitStatus::Continued(_)) => Ok(WaitEvent::Continued),
        Ok(WaitStatus::StillAlive) => Ok(WaitEvent::StillAlive),
        Err(errno) => Err(std::io::Error::from(errno).to_string().into_bytes()),
    }
}

/// What follows from the first wait. A stop by the trap signal is the sign
/// that the process waits to be traced; an end, or a stop by another
/// signal, means that it is not traced. Nothing else can come first.
pub open spec fn spec_first_stop(event: WaitEvent) -> Option<TraceStart> {
    match event {
        WaitEvent::Stopped(signal) => if signal == SIGTRAP {
            Some(TraceStart::Trace)
        } else {
            Some(TraceStart::Finished(Exit::Stopped(signal)))
        },
        WaitEvent::Signaled(signal) => Some(TraceStart::Finished(Exit::Signal(signal))),
        WaitEvent::Exited(status) => Some(TraceStart::Finished(Exit::Status(status))),
        _ => None,
    }
}

/// What follows from a later wait. An end ends the trace; after a stop by a
/// signal and after a stop at a system call the process is let run on.
/// Nothing else can come.
pub open spec fn spec_next_stop(event: WaitEvent) -> Option<TraceStep> {
    match event {
        WaitEvent::Signaled(signal) => Some(TraceStep::Finished(Exit::Signal(signal))),
        WaitEvent::Exited(status) => Some(TraceStep::Finished(Exit::Status(status))),
        WaitEvent::Stopped(signal) => Some(TraceStep::Resume(signal)),
        WaitEvent::PtraceSyscall => Some(TraceStep::Syscall),
        _ => None,
    }
}

/// What follows from the first wait.
pub fn on_first_stop(event: WaitEvent) -> (r: TraceStart)
    requires
        spec_first_stop(event) is Some,
    ensures
        spec_first_stop(event) == Some(r),
{
    match event {
        WaitEvent::Stopped(signal) => if signal == SIGTRAP {
            TraceStart::Trace
        } else {
            TraceStart::Finished(Exit::Stopped(signal))
        },
        WaitEvent::Signaled(signal) => TraceStart::Finished(Exit::Signal(signal)),
        WaitEvent::Exited(status) => TraceStart::Finished(Exit::Status(status)),
        _ => TraceStart::Trace,
    }
}

/// What follows from a later wait.
pub fn on_next_stop(event: WaitEvent) -> (r: TraceStep)
    requires
        spec_next_stop(event) is Some,
    ensures
        spec_next_stop(event) == Some(r),
{
    match event {
        WaitEvent::Signaled(signal) => TraceStep::Finished(Exit::Signal(signal)),
        WaitEvent::Exited(status) => TraceStep::Finished(Exit::Status(status)),
        WaitEvent::Stopped(signal) => TraceStep::Resume(signal),
        _ => TraceStep::Syscall,
    }
}

/// What a status of `waitpid` means: why the wait came back, or an error
/// for a status that names no signal. Nothing comes back for a status that
/// cannot be taken apart.
pub open spec fn spec_wait_event(pid: i32, status: i32) -> Option<Result<WaitEvent, ()>> {
    if !spec_decodable(status) {
        None
    } else {
        Some(
            match wait_status(pid, status) {
                Some(event) => Ok(event),
                None => Err(()),
            },
        )
    }
}

/// Takes a status of `waitpid` apart. Of a status that names no signal the
/// error says what the operating system says of an argument that is not
/// valid.
pub fn wait_event(pid: i32, status: i32) -> (r: Option<Result<WaitEvent, Error>>)
    ensures
        match r {
            None => spec_wait_event(pid, status) is None,
            Some(Ok(event)) => spec_wait_event(pid, status) == Some(Ok::<WaitEvent, ()>(event)),
            Some(Err(e)) => spec_wait_event(pid, status) == Some(Err::<WaitEvent, ()>(()))
                && e is IO,
        },
{
    if status & 0xff == 0xff && status != 0xffff {
        return None;
    }
    match decode_wait_status(pid, status) {
        Ok(event) => Some(Ok(event)),
        Err(reason) => Some(Err(Error::IO(reason))),
    }
}

/// What follows from the status of the first wait: the step of the tracer,
/// or the error for a status that names no signal. Nothing follows from a
/// status that cannot come first.
pub fn first_stop(pid: i32, status: i32) -> (r: Option<Result<TraceStart, Error>>)
    ensures
        match spec_wait_event(pid, status) {
            None => r is None,
            Some(Err(_)) => r is Some && r->Some_0 is Err && r->Some_0->Err_0 is IO,
            Some(Ok(event)) => match spec_first_stop(event) {
                None => r is None,
                Some(start) => r == Some(Ok::<TraceStart, Error>(start)),
            },
        },
{
    match wait_event(pid, status) {
        None => None,
        Some(Err(e)) => Some(Err(e)),
        Some(Ok(event)) => match event {
            WaitEvent::Stopped(_) | WaitEvent::Signaled(_) | WaitEvent::Exited(_) => Some(
                Ok(on_first_stop(event)),
            ),
            _ => None,
        },
    }
}

/// What follows from the status of a later wait: the step of the tracer, or
/// the error for a status that names no signal. Nothing follows from a
/// status that cannot come.
pub fn next_stop(pid: i32, status: i32) -> (r: Option<Result<TraceStep, Error>>)
    ensures
        match spec_wait_event(pid, status) {
            None => r is None,
            Some(Err(_)) => r is Some && r->Some_0 is Err && r->Some_0->Err_0 is IO,
            Some(Ok(event)) => match spec_next_stop(event) {
                None => r is None,
                Some(step) => r == Some(Ok::<TraceStep, Error>(step)),
            },
        },
{
    match wait_event(pid, status) {
        None => None,
        Some(Err(e)) => Some(Err(e)),
        Some(Ok(event)) => match event {
            WaitEvent::Stopped(_) | WaitEvent::Signaled(_) | WaitEvent::Exited(_)
            | WaitEvent::PtraceSyscall => Some(Ok(on_next_stop(event))),
            _ => None,
        },
    }
}

/// What the end of the traced process comes to: nothing where it ended with
/// the exit status zero, an error where it ended otherwise.
pub open spec fn spec_dynamic_outcome(exit: Exit) -> Result<(), ErrorView> {
    match exit {
        Exit::Status(status) => if status == 0 {
            Ok(())
        } else {
            Err(ErrorView::DynamicFailed(status))
        },
        Exit::Signal(signal) => Err(ErrorView::DynamicSignaled(signal)),
        Exit::Stopped(signal) => Err(ErrorView::DynamicSignaled(signal)),
    }
}

/// What the end of the traced process comes to.
pub fn dynamic_outcome(exit: Exit) -> (r: Result<(), Error>)
    ensures
        match r {
            Ok(_) => spec_dynamic_outcome(exit) is Ok,
            Err(e) => spec_dynamic_outcome(exit) == Err::<(), ErrorView>(e@),
        },
{
    match exit {
        Exit::Status(status) => if status == 0 {
            Ok(())
        } else {
            Err(Error::DynamicFailed(status))
        },
        Exit::Signal(signal) => Err(Error::DynamicSignaled(signal)),
        Exit::Stopped(signal) => Err(Error::DynamicSignaled(signal)),
    }
}

/// The registers of a process that tell of a system call at its entry: the
/// number of the call and its first three arguments.
#[derive(Debug, Clone, Copy, PartialEq, Eq)]
pub struct Registers {
    pub orig_rax: u64,
    pub rdi: u64,
    pub rsi: u64,
    pub rdx: u64,
}

/// A system call as far as the tracer cares for it.
#[derive(Debug, Clone, Copy, PartialEq, Eq)]
pub enum Syscall {
    /// `open`: the address of the path, and the flags.
    Open { pathname: u64, flags: i32 },
    /// `openat`: the directory, the address of the path, and the flags.
    OpenAt { dirfd: i32, pathname: u64, flags: i32 },
    /// Any other call.
    Other,
}

/// The system call that a process is about to make. The arguments of `open`
/// lie in `rdi` and `rsi`, those of `openat` in `rdi`, `rsi` and `rdx`; a
/// directory and flags are the low 32 bits of their registers.
pub open spec fn spec_syscall(regs: Registers) -> Syscall {
    if regs.orig_rax == SYS_OPENAT {
        Syscall::OpenAt { dirfd: regs.rdi as i32, pathname: regs.rsi, flags: regs.rdx as i32 }
    } else if regs.orig_rax == SYS_OPEN {
        Syscall::Open { pathname: regs.rdi, flags: regs.rsi as i32 }
    } else {
        Syscall::Other
    }
}

/// The system call that a process is about to make.
pub fn syscall(regs: &Registers) -> (r: Syscall)
    ensures
        r == spec_syscall(*regs),
{
    if regs.orig_rax == SYS_OPENAT {
        Syscall::OpenAt {
            dirfd: #[verifier::truncate]
            (regs.rdi as i32),
            pathname: regs.rsi,
            flags: #[verifier::truncate]
            (regs.rdx as i32),
        }
    } else if regs.orig_rax == SYS_OPEN {
        Syscall::Open {
            pathname: regs.rdi,
            flags: #[verifier::truncate]
            (regs.rsi as i32),
        }
    } else {
        Syscall::Other
    }
}

/// The four bytes of a word, the lowest first: the order in which they lie
/// in the memory of the traced process.
pub open spec fn spec_word_bytes(word: u32) -> Seq<u8> {
    seq![
        (word & 0xff) as u8,
        ((word >> 8) & 0xff) as u8,
        ((word >> 16) & 0xff) as u8,
        ((word >> 24) & 0xff) as u8,
    ]
}

/// The bytes of a text that ends with a zero byte: those before the first
/// zero byte.
pub open spec fn spec_text_of(bytes: Seq<u8>) -> Seq<u8> {
    bytes.take(run_len(bytes, |b: u8| b == 0) as int)
}

/// Whether bytes hold the zero byte that ends a text.
pub open spec fn spec_ends(bytes: Seq<u8>) -> bool {
    run_len(bytes, |b: u8| b == 0) < bytes.len()
}

/// The bytes of a list of words, in order.
pub open spec fn spec_words_bytes(words: Seq<u32>) -> Seq<u8>
    decreases words.len(),
{
    if words.len() == 0 {
        Seq::empty()
    } else {
        spec_words_bytes(words.drop_last()) + spec_word_bytes(words.last())
    }
}

/// A text that is read from the memory of the traced process, word by word.
#[derive(Debug)]
pub struct StringReader {
    start: u64,
    bytes: Vec<u8>,
    done: bool,
}

/// What a `StringReader` holds: the address at which the text starts, the
/// bytes of the text that were read, and whether its end was read.
pub struct StringReaderView {
    pub start: u64,
    pub text: Seq<u8>,
    pub done: bool,
}

impl StringReaderView {
    /// The reader after one more word was read. Before the end of the text
    /// the bytes of the word go to the text, up to the first zero byte,
    /// which is the end; after the end nothing changes.
    pub open spec fn push(self, word: u32) -> StringReaderView {
        if self.done {
            self
        } else {
            StringReaderView {
                start: self.start,
                text: self.text + spec_text_of(spec_word_bytes(word)),
                done: spec_ends(spec_word_bytes(word)),
            }
        }
    }

    /// The reader after words were read, one after the other.
    pub open spec fn push_all(self, words: Seq<u32>) -> StringReaderView
        decreases words.len(),
    {
        if words.len() == 0 {
            self
        } else {
            self.push_all(words.drop_last()).push(words.last())
        }
    }
}

impl View for StringReader {
    type V = StringReaderView;

    closed spec fn view(&self) -> StringReaderView {
        StringReaderView { start: self.start, text: self.bytes@, done: self.done }
    }
}

impl StringReader {
    /// A reader of the text at an address, of which nothing is read yet.
    pub fn new(start: u64) -> (r: StringReader)
        ensures
            r@ == (StringReaderView { start, text: Seq::empty(), done: false }),
    {
        StringReader { start, bytes: Vec::new(), done: false }
    }

    /// Whether the end of the text was read.
    pub fn is_done(&self) -> (r: bool)
        ensures
            r == self@.done,
    {
        self.done
    }

    /// The address of the word that is to be read next: as many bytes
    /// behind the start as were read, around the end of the address space.
    pub fn address(&self) -> (r: u64)
        ensures
            r as int == (self@.start + self@.text.len()) % 0x1_0000_0000_0000_0000,
    {
        let read = self.bytes.len() as u64;
        self.start.wrapping_add(read)
    }

    /// Takes the word that was read at the address.
    pub fn push(&mut self, word: u32)
        ensures
            final(self)@ == old(self)@.push(word),
    {
        if self.done {
            return ;
        }
        let ghost before = self.bytes@;
        let b0 = (word & 0xff) as u8;
        let b1 = ((word >> 8) & 0xff) as u8;
        let b2 = ((word >> 16) & 0xff) as u8;
        let b3 = ((word >> 24) & 0xff) as u8;
        let ghost w = spec_word_bytes(word);
        assert(w[0] == b0 && w[1] == b1 && w[2] == b2 && w[3] == b3);
        let mut read: usize = 0;
        if b0 != 0 {
            self.bytes.push(b0);
            read = 1;
            if b1 != 0 {
                self.bytes.push(b1);
                read = 2;
                if b2 != 0 {
                    self.bytes.push(b2);
                    read = 3;
                    if b3 != 0 {
                        self.bytes.push(b3);
                        read = 4;
                    }
                }
            }
        }
        self.done = read < 4;
        proof {
            lemma_run_len_is(w, |b: u8| b == 0, read as int);
            assert(self.bytes@ =~= before + w.take(read as int));
        }
    }

    /// The text that was read.
    pub fn into_bytes(self) -> (r: Vec<u8>)
        ensures
            r@ == self@.text,
    {
        self.bytes
    }
}

/// Reading a text word by word gives the text: after any number of words,
/// the reader holds the bytes of the words before the first zero byte, and
/// it has read the end where there is such a byte.
pub proof fn lemma_reader_reads_text(start: u64, words: Seq<u32>)
    ensures
        (StringReaderView { start, text: Seq::empty(), done: false }).push_all(words) == (
        StringReaderView {
            start,
            text: spec_text_of(spec_words_bytes(words)),
            done: spec_ends(spec_words_bytes(words)),
        }),
    decreases words.len(),
{
    let fresh = StringReaderView { start, text: Seq::empty(), done: false };
    if words.len() == 0 {
        assert(spec_text_of(Seq::<u8>::empty()) =~= Seq::<u8>::empty());
    } else {
        lemma_reader_reads_text(start, words.drop_last());
        lemma_text_grows(spec_words_bytes(words.drop_last()), spec_word_bytes(words.last()));
        let before = spec_words_bytes(words.drop_last());
        lemma_run_len_bound(before, |b: u8| b == 0);
        if !spec_ends(before) {
            assert(spec_text_of(before) =~= before);
        }
    }
}

/// Bytes behind a text that has no end yet go on with the text; bytes
/// behind a text that has its end change nothing.
proof fn lemma_text_grows(before: Seq<u8>, more: Seq<u8>)
    ensures
        spec_ends(before) ==> spec_text_of(before + more) == spec_text_of(before) && spec_ends(
            before + more,
        ),
        !spec_ends(before) ==> spec_text_of(before + more) == before + spec_text_of(more)
            && spec_ends(before + more) == spec_ends(more),
{
    let is_zero = |b: u8| b == 0;
    let all = before + more;
    let n = run_len(before, is_zero) as int;
    let m = run_len(more, is_zero) as int;
    lemma_run_len_holds(before, is_zero);
    lemma_run_len_holds(more, is_zero);
    if n < before.len() {
        assert forall|k: int| 0 <= k < n implies !is_zero(#[trigger] all[k]) by {
            assert(all[k] == before[k]);
        }
        assert(all[n] == before[n]);
        lemma_run_len_is(all, is_zero, n);
        assert(all.take(n) =~= before.take(n));
    } else {
        assert forall|k: int| 0 <= k < n + m implies !is_zero(#[trigger] all[k]) by {
            if k < n {
                assert(all[k] == before[k]);
            } else {
                assert(all[k] == more[k - n]);
            }
        }
        if m < more.len() {
            assert(all[n + m] == more[m]);
        }
        lemma_run_len_is(all, is_zero, n + m);
        assert(all.take(n + m) =~= before + more.take(m));
    }
}

/// The handlers to which the tracer hands the paths that a process opens.
pub struct SyscallHandler<FOpen, FOpenAt> {
    pub open: FOpen,
    pub openat: FOpenAt,
}

impl<FOpen: Fn(Vec<u8>, i32), FOpenAt: Fn(i32, Vec<u8>, i32)> SyscallHandler<FOpen, FOpenAt> {
    /// Hands a system call to the handler that is there for it: an `open`
    /// with the path and the flags, an `openat` with the directory, the path
    /// and the flags. Any other call goes to no handler.
    pub fn handle(&self, call: Syscall, pathname: Vec<u8>)
        requires
            forall|path: Vec<u8>, flags: i32| call_requires(self.open, (path, flags)),
            forall|dirfd: i32, path: Vec<u8>, flags: i32|
                call_requires(self.openat, (dirfd, path, flags)),
        ensures
            match call {
                Syscall::Open { flags, .. } => call_ensures(self.open, (pathname, flags), ()),
                Syscall::OpenAt { dirfd, flags, .. } => call_ensures(
                    self.openat,
                    (dirfd, pathname, flags),
                    (),
                ),
                Syscall::Other => true,
            },
    {
        match call {
            Syscall::Open { flags, .. } => (self.open)(pathname, flags),
            Syscall::OpenAt { dirfd, flags, .. } => (self.openat)(dirfd, pathname, flags),
            Syscall::Other => {},
        }
    }
}

} // verus!
