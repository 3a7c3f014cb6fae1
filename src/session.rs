//! The session buffer: bytes accumulate across writes, and each complete line is
//! interpreted once its newline has arrived.
use vstd::prelude::*;
use vstd::utf8::valid_utf8;
use crate::command::{CommandError, Step, interpret_at, line_outcome};
use crate::text::{find_byte, first_index, lemma_first_index, lemma_first_index_meaning, lemma_no_index};

verus! {

/// The byte that ends a command line.
pub const NEWLINE: u8 = 0x0a;

/// The lines of `b` that a newline ends, in order, without their newlines.
pub open spec fn complete_lines(b: Seq<u8>) -> Seq<Seq<u8>>
    decreases b.len(),
{
    match first_index(b, NEWLINE) {
        Some(i) => if 0 <= i < b.len() {
            seq![b.take(i)] + complete_lines(b.skip(i + 1))
        } else {
            seq![]
        },
        None => seq![],
    }
}

/// What follows the last newline of `b`: all of `b` when it holds none.
pub open spec fn partial_line(b: Seq<u8>) -> Seq<u8>
    decreases b.len(),
{
    match first_index(b, NEWLINE) {
        Some(i) => if 0 <= i < b.len() {
            partial_line(b.skip(i + 1))
        } else {
            b
        },
        None => b,
    }
}

/// Interprets `ls` in order, stopping after the first line that fails: the steps of
/// the lines interpreted, and the first error.
pub open spec fn run_lines(ls: Seq<Seq<u8>>) -> (Seq<Step>, Result<(), CommandError>)
    decreases ls.len(),
{
    if ls.len() == 0 {
        (seq![], Ok(()))
    } else {
        let head = line_outcome(ls[0]);
        if head.1 is Err {
            head
        } else {
            let rest = run_lines(ls.drop_first());
            (head.0 + rest.0, rest.1)
        }
    }
}

/// One write of `input` to a session holding `pending`: the bytes held afterwards,
/// the steps to perform, and whether the write succeeded.
///
/// The input is appended. Unless the whole buffer is UTF-8 text, nothing runs and
/// everything stays buffered. Otherwise the complete lines run in order up to the
/// first that fails, and the bytes after the last newline stay buffered.
pub open spec fn session_step(pending: Seq<u8>, input: Seq<u8>) -> (
    Seq<u8>,
    Seq<Step>,
    Result<(), CommandError>,
) {
    let buf = pending + input;
    if !valid_utf8(buf) {
        (buf, seq![], Err(CommandError::InvalidEncoding))
    } else {
        let r = run_lines(complete_lines(buf));
        (partial_line(buf), r.0, r.1)
    }
}

/// The lines `ls`, each followed by a newline, one after the other.
pub open spec fn join_lines(ls: Seq<Seq<u8>>) -> Seq<u8>
    decreases ls.len(),
{
    if ls.len() == 0 {
        seq![]
    } else {
        ls[0] + seq![NEWLINE] + join_lines(ls.drop_first())
    }
}

/// Relies on `core::str::from_utf8`, which succeeds exactly on valid UTF-8.
#[verifier::external_body]
fn is_utf8(b: &[u8]) -> (r: bool)
    ensures
        r == valid_utf8(b@),
{
    core::str::from_utf8(b).is_ok()
}

/// What one write did: the steps to perform on the hardware, in order, and the
/// number of bytes accepted or the error that ended the write.
pub struct Batch {
    pub steps: Vec<Step>,
    pub result: Result<usize, CommandError>,
}

/// The state of one open device handle: the bytes received that are not yet part of
/// a complete line.
pub struct Session {
    pending: Vec<u8>,
}

impl View for Session {
    type V = Seq<u8>;

    closed spec fn view(&self) -> Seq<u8> {
        self.pending@
    }
}

impl Session {
    /// A session with nothing buffered.
    pub fn new() -> (s: Session)
        ensures
            s@ == Seq::<u8>::empty(),
    {
        Session { pending: Vec::new() }
    }

    /// The bytes buffered.
    pub fn pending(&self) -> (r: &[u8])
        ensures
            r@ == self@,
    {
        self.pending.as_slice()
    }

    /// Accepts `input`: appends it, interprets every line it completes, and keeps what
    /// follows the last newline for the next write. On success every byte counts as
    /// accepted, whether or not its line has run yet.
    pub fn process(&mut self, input: &[u8]) -> (r: Batch)
        ensures
            ({
                let st = session_step(old(self)@, input@);
                &&& final(self)@ == st.0
                &&& r.steps@ == st.1
                &&& r.result == match st.2 {
                    Ok(_) => Ok(input@.len() as usize),
                    Err(e) => Err(e),
                }
            }),
    {
        let mut k: usize = 0;
        while k < input.len()
            invariant
                k <= input@.len(),
                self.pending@ == old(self)@ + input@.take(k as int),
            decreases input@.len() - k,
        {
            self.pending.push(input[k]);
            assert(input@.take(k + 1) =~= input@.take(k as int).push(input@[k as int]));
            k = k + 1;
        }
        assert(input@.take(k as int) =~= input@);
        let mut steps: Vec<Step> = Vec::new();
        if !is_utf8(self.pending.as_slice()) {
            return Batch { steps, result: Err(CommandError::InvalidEncoding) };
        }
        let ghost b = self.pending@;
        let len = self.pending.len();
        let mut start: usize = 0;
        let mut failed: Option<CommandError> = None;
        assert(b.subrange(0, len as int) =~= b);
        loop
            invariant
                b == self.pending@,
                len == b.len(),
                start <= len,
                partial_line(b) == partial_line(b.subrange(start as int, len as int)),
                failed is None ==> run_lines(complete_lines(b)) == (
                    steps@ + run_lines(complete_lines(b.subrange(start as int, len as int))).0,
                    run_lines(complete_lines(b.subrange(start as int, len as int))).1,
                ),
                failed matches Some(e) ==> run_lines(complete_lines(b)) == (
                    steps@,
                    Err::<(), CommandError>(e),
                ),
            ensures
                start <= len,
                partial_line(b) == b.subrange(start as int, len as int),
                failed is None ==> run_lines(complete_lines(b)) == (steps@, Ok::<(), CommandError>(())),
                failed matches Some(e) ==> run_lines(complete_lines(b)) == (
                    steps@,
                    Err::<(), CommandError>(e),
                ),
            decreases len - start,
        {
            let ghost tail = b.subrange(start as int, len as int);
            match find_byte(self.pending.as_slice(), start, len, NEWLINE) {
                None => {
                    assert(steps@ + Seq::<Step>::empty() =~= steps@);
                    break;
                },
                Some(i) => {
                    let ghost line = b.subrange(start as int, i as int);
                    let ghost next = b.subrange(i + 1, len as int);
                    assert(tail.take(i - start) =~= line);
                    assert(tail.skip(i - start + 1) =~= next);
                    assert(complete_lines(tail) == seq![line] + complete_lines(next));
                    assert((seq![line] + complete_lines(next)).drop_first() =~= complete_lines(
                        next,
                    ));
                    if failed.is_none() {
                        let ghost before = steps@;
                        let r = interpret_at(self.pending.as_slice(), start, i, &mut steps);
                        match r {
                            Ok(()) => {
                                assert(before + run_lines(complete_lines(tail)).0 =~= steps@
                                    + run_lines(complete_lines(next)).0);
                            },
                            Err(e) => {
                                failed = Some(e);
                            },
                        }
                    }
                    start = i + 1;
                },
            }
        }
        let rest = self.pending.split_off(start);
        self.pending = rest;
        match failed {
            None => Batch { steps, result: Ok(input.len()) },
            Some(e) => Batch { steps, result: Err(e) },
        }
    }
}


proof fn lemma_lines_of_concat(a: Seq<u8>, c: Seq<u8>)
    ensures
        complete_lines(a + c) == complete_lines(a) + complete_lines(partial_line(a) + c),
        partial_line(a + c) == partial_line(partial_line(a) + c),
    decreases a.len(),
{
    lemma_first_index_meaning(a, NEWLINE);
    match first_index(a, NEWLINE) {
        Some(i) => {
            let ac = a + c;
            assert forall|j: int| 0 <= j < i implies ac[j] != NEWLINE by {
                assert(ac[j] == a[j]);
            }
            assert(ac[i] == a[i]);
            lemma_first_index(ac, NEWLINE, i);
            assert(ac.take(i) =~= a.take(i));
            assert(ac.skip(i + 1) =~= a.skip(i + 1) + c);
            lemma_lines_of_concat(a.skip(i + 1), c);
            assert(complete_lines(a + c) =~= complete_lines(a) + complete_lines(
                partial_line(a) + c,
            ));
        },
        None => {
            assert(complete_lines(a) =~= Seq::<Seq<u8>>::empty());
            assert(complete_lines(a) + complete_lines(a + c) =~= complete_lines(a + c));
        },
    }
}

proof fn lemma_run_concat(l1: Seq<Seq<u8>>, l2: Seq<Seq<u8>>)
    ensures
        run_lines(l1).1 is Ok ==> run_lines(l1 + l2) == (
            run_lines(l1).0 + run_lines(l2).0,
            run_lines(l2).1,
        ),
    decreases l1.len(),
{
    if l1.len() == 0 {
        assert(l1 + l2 =~= l2);
        assert(run_lines(l1).0 + run_lines(l2).0 =~= run_lines(l2).0);
    } else {
        assert((l1 + l2)[0] == l1[0]);
        assert((l1 + l2).drop_first() =~= l1.drop_first() + l2);
        lemma_run_concat(l1.drop_first(), l2);
        let h = line_outcome(l1[0]);
        if h.1 is Ok {
            let r1 = run_lines(l1.drop_first());
            assert(h.0 + r1.0 + run_lines(l2).0 =~= h.0 + (r1.0 + run_lines(l2).0));
        }
    }
}

proof fn lemma_lines_cover(b: Seq<u8>)
    ensures
        join_lines(complete_lines(b)) + partial_line(b) == b,
        forall|j: int| 0 <= j < partial_line(b).len() ==> partial_line(b)[j] != NEWLINE,
    decreases b.len(),
{
    lemma_first_index_meaning(b, NEWLINE);
    match first_index(b, NEWLINE) {
        Some(i) => {
            lemma_lines_cover(b.skip(i + 1));
            let ls = complete_lines(b);
            assert(ls[0] == b.take(i));
            assert(ls.drop_first() =~= complete_lines(b.skip(i + 1)));
            assert(b =~= b.take(i) + seq![NEWLINE] + b.skip(i + 1));
            assert(join_lines(ls) + partial_line(b) =~= b.take(i) + seq![NEWLINE] + (join_lines(
                complete_lines(b.skip(i + 1)),
            ) + partial_line(b.skip(i + 1))));
        },
        None => {
            assert(join_lines(complete_lines(b)) + b =~= b);
        },
    }
}

/// A write in which no newline arrives, to a session holding no newline, runs
/// nothing and keeps all of its input buffered after what was there.
pub proof fn lemma_write_without_newline(pending: Seq<u8>, input: Seq<u8>)
    requires
        forall|j: int| 0 <= j < pending.len() ==> pending[j] != NEWLINE,
        forall|j: int| 0 <= j < input.len() ==> input[j] != NEWLINE,
    ensures
        session_step(pending, input).0 == pending + input,
        session_step(pending, input).1 == Seq::<Step>::empty(),
{
    let buf = pending + input;
    assert forall|j: int| 0 <= j < buf.len() implies buf[j] != NEWLINE by {
        if j < pending.len() {
            assert(buf[j] == pending[j]);
        } else {
            assert(buf[j] == input[j - pending.len()]);
        }
    }
    lemma_no_index(buf, NEWLINE);
    assert(complete_lines(buf) =~= Seq::<Seq<u8>>::empty());
}

/// A write of text that ends with a newline leaves nothing buffered, and the lines
/// that run are all of the buffer, in order.
pub proof fn lemma_write_ending_in_newline(pending: Seq<u8>, input: Seq<u8>)
    requires
        input.len() > 0,
        input.last() == NEWLINE,
        valid_utf8(pending + input),
    ensures
        session_step(pending, input).0 == Seq::<u8>::empty(),
        join_lines(complete_lines(pending + input)) == pending + input,
        session_step(pending, input).1 == run_lines(complete_lines(pending + input)).0,
{
    let buf = pending + input;
    lemma_lines_cover(buf);
    let p = partial_line(buf);
    if p.len() > 0 {
        let joined = join_lines(complete_lines(buf));
        assert((joined + p)[buf.len() - 1] == p[p.len() - 1]);
        assert(buf[buf.len() - 1] == NEWLINE);
    }
    assert(p =~= Seq::<u8>::empty());
    assert(join_lines(complete_lines(buf)) + p =~= join_lines(complete_lines(buf)));
}

/// Writing `first` and then `second` runs the same steps, and leaves the same bytes
/// buffered, as writing both at once, as long as the buffer is text at each write
/// and the first write succeeds.
pub proof fn lemma_split_write(pending: Seq<u8>, first: Seq<u8>, second: Seq<u8>)
    requires
        valid_utf8(pending + first),
        valid_utf8(session_step(pending, first).0 + second),
        valid_utf8(pending + (first + second)),
        session_step(pending, first).2 is Ok,
    ensures
        ({
            let one = session_step(pending, first);
            let two = session_step(one.0, second);
            let both = session_step(pending, first + second);
            &&& one.1 + two.1 == both.1
            &&& two.0 == both.0
            &&& two.2 == both.2
        }),
{
    let a = pending + first;
    assert(pending + (first + second) =~= a + second);
    lemma_lines_of_concat(a, second);
    lemma_run_concat(complete_lines(a), complete_lines(partial_line(a) + second));
}

} // verus!
