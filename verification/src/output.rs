//! Text written to stdout or stderr above the rendered output: the queue of
//! messages, how a trailing newline becomes a flag, and how newlines are
//! written in raw mode.
use vstd::prelude::*;
use crate::chars;

verus! {

/// A standard output stream.
#[derive(Clone, Copy, Debug, PartialEq, Eq, Structural)]
pub enum Output {
    /// Standard output.
    Stdout,
    /// Standard error.
    Stderr,
}

/// Text to write above the rendered output.
pub struct Passthrough {
    /// Which standard stream the text is written to.
    pub stream: Output,
    /// The text. Where `newline` is false, it does not end with a newline.
    pub content: String,
    /// Whether the text is ended with a newline.
    pub newline: bool,
}

/// A message, as values: its stream, its text and whether a newline ends it.
pub type MessageView = (Output, Seq<char>, bool);

/// The message queued for text: a text without a newline flag that ends
/// with a newline (`"\n"` or `"\r\n"`) has it taken off and gets the flag;
/// any other text is queued as it is.
pub open spec fn normalized(stream: Output, content: Seq<char>, newline: bool) -> MessageView {
    if !newline && content.len() > 0 && content.last() == '\n' {
        let c = content.drop_last();
        (stream, if c.len() > 0 && c.last() == '\r' { c.drop_last() } else { c }, true)
    } else {
        (stream, content, newline)
    }
}

/// Messages waiting to be written, oldest first.
pub struct UseOutputState {
    /// The messages.
    pub queue: Vec<Passthrough>,
}

/// The messages of a queue, as values.
pub open spec fn queue_view(q: Seq<Passthrough>) -> Seq<MessageView> {
    Seq::new(q.len(), |i: int| (q[i].stream, q[i].content@, q[i].newline))
}

/// Drops a trailing character of a string.
fn pop_char(s: &mut String) -> (r: Option<char>)
    ensures
        old(s)@.len() == 0 ==> r is None && final(s)@ == old(s)@,
        old(s)@.len() > 0 ==> r == Some(old(s)@.last()) && final(s)@ == old(s)@.drop_last(),
{
    let cs = chars::to_chars(s.as_str());
    if cs.len() == 0 {
        return None;
    }
    let last = cs[cs.len() - 1];
    *s = chars::string_of(&chars::subrange_vec(&cs, 0, cs.len() - 1));
    assert(cs@.subrange(0, cs@.len() - 1) =~= old(s)@.drop_last());
    Some(last)
}

/// Whether a string ends with `c`.
fn ends_with(s: &String, c: char) -> (r: bool)
    ensures
        r == (s@.len() > 0 && s@.last() == c),
{
    let cs = chars::to_chars(s.as_str());
    cs.len() > 0 && cs[cs.len() - 1] == c
}

impl UseOutputState {
    /// An empty queue.
    pub fn new() -> (r: UseOutputState)
        ensures
            r.queue@.len() == 0,
    {
        UseOutputState { queue: Vec::new() }
    }

    /// Queues a message, [`normalized`].
    pub fn push(&mut self, stream: Output, content: String, newline: bool)
        ensures
            queue_view(final(self).queue@) == queue_view(old(self).queue@).push(normalized(stream, content@, newline)),
    {
        let ghost c0 = content@;
        let ghost n0 = newline;
        let mut content = content;
        let mut newline = newline;
        if !newline && ends_with(&content, '\n') {
            pop_char(&mut content);
            if ends_with(&content, '\r') {
                pop_char(&mut content);
            }
            newline = true;
        }
        self.queue.push(Passthrough { stream, content, newline });
        assert(queue_view(self.queue@) =~= queue_view(old(self).queue@).push(normalized(stream, c0, n0)));
    }

    /// Whether messages are waiting.
    pub fn has_pending(&self) -> (r: bool)
        ensures
            r == (self.queue@.len() > 0),
    {
        self.queue.len() > 0
    }

    /// Takes the waiting messages, oldest first, leaving the queue empty.
    pub fn take_queue(&mut self) -> (r: Vec<Passthrough>)
        ensures
            r@ == old(self).queue@,
            final(self).queue@.len() == 0,
    {
        let mut q: Vec<Passthrough> = Vec::new();
        std::mem::swap(&mut q, &mut self.queue);
        q
    }
}

/// A queued message without the newline flag never ends with a newline.
pub open spec fn message_ok(m: MessageView) -> bool {
    m.2 || m.1.len() == 0 || m.1.last() != '\n'
}

/// Every message queued is either flagged to end with a newline or does not
/// end with one: the backend alone chooses line terminators.
pub proof fn lemma_normalized_ok(stream: Output, content: Seq<char>, newline: bool)
    ensures
        message_ok(normalized(stream, content, newline)),
{
}

/// A handle to write to stdout.
#[derive(Clone, Copy, Debug)]
pub struct StdoutHandle;

/// A handle to write to stderr.
#[derive(Clone, Copy, Debug)]
pub struct StderrHandle;

impl StdoutHandle {
    /// Queues a line for stdout.
    pub fn println(&self, state: &mut UseOutputState, msg: &str)
        ensures
            queue_view(final(state).queue@) == queue_view(old(state).queue@).push(normalized(Output::Stdout, msg@, true)),
    {
        state.push(Output::Stdout, msg.to_owned(), true);
    }

    /// Queues text for stdout, without a newline.
    pub fn print(&self, state: &mut UseOutputState, msg: &str)
        ensures
            queue_view(final(state).queue@) == queue_view(old(state).queue@).push(normalized(Output::Stdout, msg@, false)),
    {
        state.push(Output::Stdout, msg.to_owned(), false);
    }
}

impl StderrHandle {
    /// Queues a line for stderr.
    pub fn println(&self, state: &mut UseOutputState, msg: &str)
        ensures
            queue_view(final(state).queue@) == queue_view(old(state).queue@).push(normalized(Output::Stderr, msg@, true)),
    {
        state.push(Output::Stderr, msg.to_owned(), true);
    }

    /// Queues text for stderr, without a newline.
    pub fn print(&self, state: &mut UseOutputState, msg: &str)
        ensures
            queue_view(final(state).queue@) == queue_view(old(state).queue@).push(normalized(Output::Stderr, msg@, false)),
    {
        state.push(Output::Stderr, msg.to_owned(), false);
    }
}

/// The handles a component writes to stdout and stderr with.
pub fn use_output() -> (r: (StdoutHandle, StderrHandle)) {
    (StdoutHandle, StderrHandle)
}

/// Pieces joined, each but the last without a carriage return at its end
/// and followed by `"\r\n"`.
pub open spec fn crlf_join(pieces: Seq<Seq<char>>) -> Seq<char>
    decreases pieces.len(),
{
    if pieces.len() == 0 {
        Seq::empty()
    } else if pieces.len() == 1 {
        pieces[0]
    } else {
        crlf_lines(pieces.drop_last()) + pieces.last()
    }
}

/// Pieces, each without a carriage return at its end and followed by
/// `"\r\n"`.
pub open spec fn crlf_lines(pieces: Seq<Seq<char>>) -> Seq<char>
    decreases pieces.len(),
{
    if pieces.len() == 0 {
        Seq::empty()
    } else {
        crlf_lines(pieces.drop_last()) + chars::strip_cr(pieces.last()) + seq!['\r', '\n']
    }
}

/// The text written for a message's content: in raw mode, each `"\n"` (or
/// `"\r\n"`) becomes `"\r\n"`, since a bare newline does not return the
/// cursor to the first column; otherwise the content as it is.
pub open spec fn passthrough_view(content: Seq<char>, needs_carriage_returns: bool) -> Seq<char> {
    if needs_carriage_returns {
        crlf_join(chars::split_newlines(content))
    } else {
        content
    }
}

/// The text written for a message's content.
pub fn passthrough_text(content: &str, needs_carriage_returns: bool) -> (r: String)
    ensures
        r@ == passthrough_view(content@, needs_carriage_returns),
{
    if !needs_carriage_returns {
        return content.to_owned();
    }
    let cs = chars::to_chars(content);
    let mut out = String::new();
    let mut piece: Vec<char> = Vec::new();
    let mut i: usize = 0;
    assert(cs@.take(0) =~= Seq::<char>::empty());
    assert(chars::split_newlines(cs@.take(0)) =~= seq![Seq::<char>::empty()]);
    assert(chars::split_newlines(cs@.take(0)).drop_last() =~= Seq::<Seq<char>>::empty());
    while i < cs.len()
        invariant
            i <= cs@.len(),
            chars::split_newlines(cs@.take(i as int)).len() >= 1,
            out@ == crlf_lines(chars::split_newlines(cs@.take(i as int)).drop_last()),
            piece@ == chars::split_newlines(cs@.take(i as int)).last(),
        decreases cs@.len() - i,
    {
        let c = cs[i];
        let ghost before = chars::split_newlines(cs@.take(i as int));
        assert(cs@.take(i + 1).drop_last() =~= cs@.take(i as int));
        if c == '\n' {
            if piece.len() > 0 && piece[piece.len() - 1] == '\r' {
                piece.pop();
            }
            chars::push_chars(&mut out, piece.as_slice());
            chars::push_char(&mut out, '\r');
            chars::push_char(&mut out, '\n');
            piece = Vec::new();
            let ghost after = chars::split_newlines(cs@.take(i + 1));
            assert(after == before.push(Seq::empty()));
            assert(after.drop_last() =~= before);
            assert(before =~= before.drop_last().push(before.last()));
            assert(out@ =~= crlf_lines(after.drop_last()));
        } else {
            piece.push(c);
            let ghost after = chars::split_newlines(cs@.take(i + 1));
            assert(after == before.update(before.len() - 1, before.last().push(c)));
            assert(after.drop_last() =~= before.drop_last());
        }
        i += 1;
    }
    assert(cs@.take(cs@.len() as int) =~= cs@);
    let ghost all = chars::split_newlines(cs@);
    chars::push_chars(&mut out, piece.as_slice());
    proof {
        if all.len() == 1 {
            assert(all.drop_last() =~= Seq::<Seq<char>>::empty());
        }
    }
    assert(out@ =~= crlf_join(all));
    out
}


impl UseOutputState {
    /// A handle that writes to stdout through this queue.
    pub fn use_stdout(&self) -> (r: StdoutHandle) {
        StdoutHandle
    }

    /// A handle that writes to stderr through this queue.
    pub fn use_stderr(&self) -> (r: StderrHandle) {
        StderrHandle
    }
}

/// Lines waiting to be printed to one stream.
pub struct UseStdout {
    /// The lines, oldest first.
    pub queue: Vec<String>,
}

/// Lines waiting to be printed to stderr.
pub struct UseStderr {
    /// The lines, oldest first.
    pub queue: Vec<String>,
}

/// A handle that queues lines for stdout.
#[derive(Clone, Copy, Debug)]
pub struct UseStdoutHandle;

/// A handle that queues lines for stderr.
#[derive(Clone, Copy, Debug)]
pub struct UseStderrHandle;

/// The texts of strings.
pub open spec fn texts(q: Seq<String>) -> Seq<Seq<char>> {
    Seq::new(q.len(), |i: int| q[i]@)
}

impl UseStdoutHandle {
    /// Queues a line.
    pub fn println(&self, state: &mut UseStdout, msg: &str)
        ensures
            texts(final(state).queue@) == texts(old(state).queue@).push(msg@),
    {
        state.queue.push(msg.to_owned());
        assert(texts(state.queue@) =~= texts(old(state).queue@).push(msg@));
    }
}

impl UseStderrHandle {
    /// Queues a line.
    pub fn println(&self, state: &mut UseStderr, msg: &str)
        ensures
            texts(final(state).queue@) == texts(old(state).queue@).push(msg@),
    {
        state.queue.push(msg.to_owned());
        assert(texts(state.queue@) =~= texts(old(state).queue@).push(msg@));
    }
}

impl UseStdout {
    /// An empty queue.
    pub fn new() -> (r: UseStdout)
        ensures
            r.queue@.len() == 0,
    {
        UseStdout { queue: Vec::new() }
    }

    /// Takes the lines waiting to be printed (oldest first) and gives a
    /// handle to queue more.
    pub fn use_stdout(&mut self) -> (r: (Vec<String>, UseStdoutHandle))
        ensures
            r.0@ == old(self).queue@,
            final(self).queue@.len() == 0,
    {
        let mut q: Vec<String> = Vec::new();
        std::mem::swap(&mut q, &mut self.queue);
        (q, UseStdoutHandle)
    }
}

impl UseStderr {
    /// An empty queue.
    pub fn new() -> (r: UseStderr)
        ensures
            r.queue@.len() == 0,
    {
        UseStderr { queue: Vec::new() }
    }

    /// Takes the lines waiting to be printed (oldest first) and gives a
    /// handle to queue more.
    pub fn use_stderr(&mut self) -> (r: (Vec<String>, UseStderrHandle))
        ensures
            r.0@ == old(self).queue@,
            final(self).queue@.len() == 0,
    {
        let mut q: Vec<String> = Vec::new();
        std::mem::swap(&mut q, &mut self.queue);
        (q, UseStderrHandle)
    }
}

/// Whether output written above the interface leaves the cursor after text
/// that did not end its line: starting from `pending` (the last batch left
/// such text), each message written changes it: one that ends its line
/// clears it, one with text and no line end sets it; a message not written
/// (`written` false) or empty and without a line end leaves it.
pub open spec fn line_left_open(pending: bool, msgs: Seq<MessageView>, written: Seq<bool>) -> bool
    decreases msgs.len(),
{
    if msgs.len() == 0 {
        pending
    } else {
        let m = msgs.last();
        let before = line_left_open(pending, msgs.drop_last(), written);
        if written.len() < msgs.len() || !written[msgs.len() - 1] {
            before
        } else if m.2 {
            false
        } else if m.1.len() > 0 {
            true
        } else {
            before
        }
    }
}

/// Whether a line break has to follow a batch of messages so that the
/// interface is drawn below them (see [`line_left_open`]); `written` says
/// which messages were written.
pub fn needs_trailing_newline(pending: bool, messages: &[Passthrough], written: &[bool]) -> (r: bool)
    requires
        written@.len() == messages@.len(),
    ensures
        r == line_left_open(pending, queue_view(messages@), written@),
{
    let ghost all = queue_view(messages@);
    let mut open = pending;
    let mut i: usize = 0;
    while i < messages.len()
        invariant
            i <= messages@.len(),
            written@.len() == messages@.len(),
            all == queue_view(messages@),
            open == line_left_open(pending, all.take(i as int), written@),
        decreases messages@.len() - i,
    {
        assert(all.take(i + 1).drop_last() =~= all.take(i as int));
        if written[i] {
            if messages[i].newline {
                open = false;
            } else if messages[i].content.as_str().unicode_len() > 0 {
                proof {
                    assert(messages@[i as int].content@.len() > 0);
                }
                open = true;
            }
        }
        i += 1;
    }
    assert(all.take(messages@.len() as int) =~= all);
    open
}

} // verus!
