//! Waiting at startup for files that are still being written.
//!
//! A file that is missing, empty or half-written is not there yet. Any other
//! failure does not mend itself and is reported at once.

use vstd::prelude::*;
use vstd::string::*;
use vstd::utf8::{decode_utf8, valid_utf8};

use crate::decimal::{dec, format_u64};
use crate::outside::{lossy_text, text_of_bytes, utf8_text};
use crate::text::{
    ends_with, has_prefix, has_suffix, split, split_on, starts_with, texts, trim, trimmed_text,
};

verus! {

/// How long a component waits for a file, in milliseconds.
pub const DEFAULT_STARTUP_TIMEOUT: u64 = 120000;

/// How often a file is read again, in milliseconds.
pub const POLL_INTERVAL: u64 = 250;

/// How often it is said that the file is still missing, in milliseconds.
pub const REPORT_INTERVAL: u64 = 10000;

// ---------------------------------------------------------------------------
// Contents
// ---------------------------------------------------------------------------

/// A line begins a block.
pub open spec fn begins_block(line: Seq<char>) -> bool {
    has_prefix(trimmed_text(line), "-----BEGIN"@)
}

/// A line ends a block.
pub open spec fn ends_block(line: Seq<char>) -> bool {
    !begins_block(line) && has_prefix(trimmed_text(line), "-----END"@) && has_suffix(
        trimmed_text(line),
        "-----"@,
    )
}

/// The block that begins in line `i` ends: a line behind it ends a block, and none
/// in between begins another.
pub open spec fn is_closed(lines: Seq<Seq<char>>, i: int) -> bool {
    exists|j: int|
        i < j < lines.len() && ends_block(#[trigger] lines[j]) && forall|k: int|
            i < k < j ==> !begins_block(#[trigger] lines[k])
}

/// A text holds a block, and every block that begins ends.
pub open spec fn whole_pem(text: Seq<char>) -> bool {
    let lines = split(text, '\n');
    &&& exists|i: int| 0 <= i < lines.len() && begins_block(#[trigger] lines[i])
    &&& forall|i: int|
        0 <= i < lines.len() && begins_block(#[trigger] lines[i]) ==> is_closed(lines, i)
}

/// The last line that begins a block stands in front of line `n`, and no line from
/// there on ends it.
spec fn left_open(lines: Seq<Seq<char>>, n: int, at: int) -> bool {
    &&& 0 <= at < n <= lines.len()
    &&& begins_block(lines[at])
    &&& forall|k: int|
        at < k < n ==> !begins_block(#[trigger] lines[k]) && !ends_block(lines[k])
}

proof fn lemma_never_closed(lines: Seq<Seq<char>>, n: int, at: int)
    requires
        left_open(lines, n, at),
        n == lines.len() || begins_block(lines[n]),
    ensures
        !is_closed(lines, at),
{
    if is_closed(lines, at) {
        let j = choose|j: int|
            at < j < lines.len() && ends_block(#[trigger] lines[j]) && forall|k: int|
                at < k < j ==> !begins_block(#[trigger] lines[k]);
        if n < j {
            assert(!begins_block(lines[n]));
        }
    }
}

/// Whether a text holds a block, and every block that begins ends.
pub fn is_whole_pem(text: &str) -> (r: bool)
    ensures
        r == whole_pem(text@),
{
    let lines = split_on(text, '\n');
    let ghost ls = split(text@, '\n');
    let mut open = false;
    let mut any = false;
    let ghost mut at: int = 0;
    let mut i: usize = 0;
    while i < lines.len()
        invariant
            i <= lines.len(),
            ls == split(text@, '\n'),
            ls == texts(lines@),
            any == exists|k: int| 0 <= k < i && begins_block(#[trigger] ls[k]),
            open ==> left_open(ls, i as int, at),
            forall|k: int|
                0 <= k < i && begins_block(#[trigger] ls[k]) && !(open && k == at) ==> is_closed(
                    ls,
                    k,
                ),
        decreases lines.len() - i,
    {
        assert(ls[i as int] == lines@[i as int]@);
        let line = trim(lines[i].as_str());
        if starts_with(line, "-----BEGIN") {
            assert(begins_block(ls[i as int]));
            if open {
                proof {
                    lemma_never_closed(ls, i as int, at);
                }
                return false;
            }
            open = true;
            any = true;
            proof {
                at = i as int;
            }
        } else if starts_with(line, "-----END") && ends_with(line, "-----") {
            assert(ends_block(ls[i as int]));
            assert(open ==> is_closed(ls, at));
            open = false;
        }
        i = i + 1;
    }
    proof {
        if open {
            lemma_never_closed(ls, i as int, at);
        }
    }
    any && !open
}

/// Whether a file holds a PEM whose writer has finished: at least one block, and
/// every `BEGIN` has its `END`.
pub fn is_complete_pem(bytes: &[u8]) -> (r: bool)
    ensures
        r == whole_pem(lossy_text(bytes@)),
{
    let text = text_of_bytes(bytes);
    is_whole_pem(text.as_str())
}

/// The text in some bytes; empty where they are no UTF-8.
pub open spec fn text_in(bytes: Seq<u8>) -> Seq<char> {
    if valid_utf8(bytes) {
        decode_utf8(bytes)
    } else {
        Seq::empty()
    }
}

/// The text of some bytes without the white space around it; empty where they are
/// no UTF-8.
pub fn trimmed(bytes: &[u8]) -> (r: String)
    ensures
        r@ == trimmed_text(text_in(bytes@)),
{
    match utf8_text(bytes) {
        Some(s) => trim(s).to_owned(),
        None => {
            assert(trimmed_text(Seq::<char>::empty()) =~= Seq::<char>::empty());
            String::new()
        },
    }
}

// ---------------------------------------------------------------------------
// Waiting
// ---------------------------------------------------------------------------

/// What a read of the file gave.
pub enum FileRead {
    /// The contents.
    Contents(Vec<u8>),
    /// There is no such file.
    Missing,
    /// The read failed for another reason.
    Failed(String),
}

/// What to say about the wait.
#[derive(Debug, Clone, Copy, PartialEq, Eq, Structural)]
pub enum Report {
    Nothing,
    /// The wait begins.
    Waiting,
    /// The wait goes on.
    StillWaiting,
}

/// What to do after a read.
pub enum WaitStep {
    /// The file is ready.
    Ready(Vec<u8>),
    /// The file cannot be read, and why.
    Failed(String),
    /// It took too long, and why.
    TimedOut(String),
    /// Read again later; say why the file is not ready.
    Again(Report, String),
}

/// A [`WaitStep`] as text.
pub ghost enum WaitView {
    Ready(Seq<u8>),
    Failed(Seq<char>),
    TimedOut(Seq<char>),
    Again(Report, Seq<char>),
}

impl View for WaitStep {
    type V = WaitView;

    open spec fn view(&self) -> WaitView {
        match self {
            WaitStep::Ready(b) => WaitView::Ready(b@),
            WaitStep::Failed(e) => WaitView::Failed(e@),
            WaitStep::TimedOut(e) => WaitView::TimedOut(e@),
            WaitStep::Again(r, why) => WaitView::Again(*r, why@),
        }
    }
}

/// Why a file is not ready.
pub open spec fn not_ready(read: FileRead) -> Seq<char> {
    match read {
        FileRead::Contents(b) => if b@.len() == 0 {
            "file is empty"@
        } else {
            "file is incomplete — still being written"@
        },
        _ => "file does not exist yet"@,
    }
}

/// What to say about a wait: that it begins, and then every
/// [`REPORT_INTERVAL`] that it goes on.
pub open spec fn report_for(waiting: bool, since_report: u64) -> Report {
    if !waiting {
        Report::Waiting
    } else if since_report >= REPORT_INTERVAL {
        Report::StillWaiting
    } else {
        Report::Nothing
    }
}

/// What to do after a read. `ready` says whether the contents are what was waited
/// for; times are in milliseconds.
pub open spec fn wait_step(
    read: FileRead,
    ready: bool,
    what: Seq<char>,
    path: Seq<char>,
    elapsed: u64,
    timeout: u64,
    waiting: bool,
    since_report: u64,
) -> WaitView {
    match read {
        FileRead::Failed(e) => WaitView::Failed(what + " at "@ + path + ": "@ + e@),
        FileRead::Contents(b) if ready => WaitView::Ready(b@),
        _ => if elapsed >= timeout {
            WaitView::TimedOut(
                "gave up after "@ + dec((timeout / 1000) as nat) + "s waiting for "@ + what + " at "@
                    + path + ": "@ + not_ready(read),
            )
        } else {
            WaitView::Again(report_for(waiting, since_report), not_ready(read))
        },
    }
}

/// What to do after a read of the file that is waited for.
pub fn wait_for_file(
    read: FileRead,
    ready: bool,
    what: &str,
    path: &str,
    elapsed: u64,
    timeout: u64,
    waiting: bool,
    since_report: u64,
) -> (r: WaitStep)
    ensures
        r@ == wait_step(read, ready, what@, path@, elapsed, timeout, waiting, since_report),
{
    let why = match read {
        FileRead::Failed(e) => {
            let m = what.to_owned().concat(" at ").concat(path).concat(": ").concat(e.as_str());
            return WaitStep::Failed(m);
        },
        FileRead::Contents(b) => {
            if ready {
                return WaitStep::Ready(b);
            }
            if b.len() == 0 {
                "file is empty"
            } else {
                "file is incomplete — still being written"
            }
        },
        FileRead::Missing => "file does not exist yet",
    };
    if elapsed >= timeout {
        let m = "gave up after ".to_owned().concat(format_u64(timeout / 1000).as_str()).concat(
            "s waiting for ",
        ).concat(what).concat(" at ").concat(path).concat(": ").concat(why);
        return WaitStep::TimedOut(m);
    }
    let report = if !waiting {
        Report::Waiting
    } else if since_report >= REPORT_INTERVAL {
        Report::StillWaiting
    } else {
        Report::Nothing
    };
    WaitStep::Again(report, why.to_owned())
}

/// What to do after a read of a PEM.
pub fn pem_file(
    read: FileRead,
    what: &str,
    path: &str,
    elapsed: u64,
    timeout: u64,
    waiting: bool,
    since_report: u64,
) -> (r: WaitStep)
    ensures
        r@ == wait_step(
            read,
            match read {
                FileRead::Contents(b) => whole_pem(lossy_text(b@)),
                _ => false,
            },
            what@,
            path@,
            elapsed,
            timeout,
            waiting,
            since_report,
        ),
{
    let ready = match &read {
        FileRead::Contents(b) => is_complete_pem(b.as_slice()),
        _ => false,
    };
    wait_for_file(read, ready, what, path, elapsed, timeout, waiting, since_report)
}

/// What to do after a read of a token: it is there once it is not empty.
pub fn token_file(
    read: FileRead,
    what: &str,
    path: &str,
    elapsed: u64,
    timeout: u64,
    waiting: bool,
    since_report: u64,
) -> (r: WaitStep)
    ensures
        r@ == wait_step(
            read,
            match read {
                FileRead::Contents(b) => trimmed_text(text_in(b@)).len() > 0,
                _ => false,
            },
            what@,
            path@,
            elapsed,
            timeout,
            waiting,
            since_report,
        ),
{
    let ready = match &read {
        FileRead::Contents(b) => {
            let t = trimmed(b.as_slice());
            t.as_str().unicode_len() > 0
        },
        _ => false,
    };
    wait_for_file(read, ready, what, path, elapsed, timeout, waiting, since_report)
}

/// Only what is not there yet is waited for: a read that failed for another reason
/// ends the wait at once.
pub proof fn law_only_what_may_come_is_waited_for(
    read: FileRead,
    ready: bool,
    what: Seq<char>,
    path: Seq<char>,
    elapsed: u64,
    timeout: u64,
    waiting: bool,
    since_report: u64,
)
    ensures
        read is Failed <==> wait_step(
            read,
            ready,
            what,
            path,
            elapsed,
            timeout,
            waiting,
            since_report,
        ) is Failed,
        elapsed >= timeout ==> !(wait_step(
            read,
            ready,
            what,
            path,
            elapsed,
            timeout,
            waiting,
            since_report,
        ) is Again),
{
}

/// A file that breaks off behind the beginning of a block is not whole, whatever stands
/// before it.
pub proof fn law_a_block_left_open_is_not_whole(text: Seq<char>, line: Seq<char>)
    requires
        !line.contains('\n'),
        has_prefix(trimmed_text(line), "-----BEGIN"@),
    ensures
        !whole_pem(text.push('\n') + line),
        !whole_pem(line),
{
    crate::text::lemma_split_push(text, '\n', line);
    crate::text::lemma_split_whole(line, '\n');
    let lines = split(text.push('\n') + line, '\n');
    let n = lines.len() - 1;
    assert(lines[n] == line);
    assert(begins_block(lines[n]));
    assert(!is_closed(lines, n));
    let one = split(line, '\n');
    assert(one[0] == line);
    assert(!is_closed(one, 0));
}

/// A file of one block that is closed is whole, whatever its body says that begins no
/// other.
pub proof fn law_a_closed_block_is_whole(begin: Seq<char>, body: Seq<char>, end: Seq<char>)
    requires
        !begin.contains('\n'),
        !body.contains('\n'),
        !end.contains('\n'),
        has_prefix(trimmed_text(begin), "-----BEGIN"@),
        !has_prefix(trimmed_text(body), "-----BEGIN"@),
        !has_prefix(trimmed_text(end), "-----BEGIN"@),
        has_prefix(trimmed_text(end), "-----END"@),
        has_suffix(trimmed_text(end), "-----"@),
    ensures
        whole_pem((begin.push('\n') + body).push('\n') + end),
        !whole_pem(body.push('\n') + end),
{
    crate::text::lemma_split_whole(begin, '\n');
    crate::text::lemma_split_push(begin, '\n', body);
    crate::text::lemma_split_push(begin.push('\n') + body, '\n', end);
    let lines = split((begin.push('\n') + body).push('\n') + end, '\n');
    assert(lines =~= seq![begin, body, end]);
    assert(begins_block(lines[0]));
    assert(!begins_block(lines[1]));
    assert(ends_block(lines[2]));
    assert(is_closed(lines, 0));
    crate::text::lemma_split_whole(body, '\n');
    crate::text::lemma_split_push(body, '\n', end);
    let rest = split(body.push('\n') + end, '\n');
    assert(rest =~= seq![body, end]);
}

/// What is ready is handed out as it was read, and what is not is waited for as long as
/// there is time.
pub proof fn law_what_is_ready_is_handed_out(
    bytes: Vec<u8>,
    ready: bool,
    what: Seq<char>,
    path: Seq<char>,
    elapsed: u64,
    timeout: u64,
    waiting: bool,
    since_report: u64,
)
    ensures
        ready ==> wait_step(
            FileRead::Contents(bytes),
            true,
            what,
            path,
            elapsed,
            timeout,
            waiting,
            since_report,
        ) == WaitView::Ready(bytes@),
        elapsed < timeout ==> wait_step(
            FileRead::Missing,
            ready,
            what,
            path,
            elapsed,
            timeout,
            waiting,
            since_report,
        ) is Again,
        elapsed < timeout ==> wait_step(
            FileRead::Contents(bytes),
            false,
            what,
            path,
            elapsed,
            timeout,
            waiting,
            since_report,
        ) is Again,
        elapsed >= timeout ==> wait_step(
            FileRead::Missing,
            ready,
            what,
            path,
            elapsed,
            timeout,
            waiting,
            since_report,
        ) is TimedOut,
{
}

/// Who waits says so at once, and again after ten seconds, and is silent between.
pub proof fn law_waiting_is_reported(since_report: u64)
    ensures
        report_for(false, since_report) == Report::Waiting,
        since_report >= 10000 ==> report_for(true, since_report) == Report::StillWaiting,
        since_report < 10000 ==> report_for(true, since_report) == Report::Nothing,
{
}

} // verus!
