use vstd::prelude::*;
use vstd::string::StringSliceAdditionalSpecFns;
use vstd::utf8::valid_utf8;

use crate::command::{bytes_of, tokens, Command, Error};
use crate::stack_vec::{StackVec, pushed};

verus! {

/// How many bytes a command line can hold.
pub const LINE_CAPACITY: usize = 512;

/// How many arguments a command can have.
pub const MAX_ARGS: usize = 64;

/// What a key press does to the line being edited.
#[derive(Debug, Clone, Copy, PartialEq, Eq, Structural)]
pub enum KeyAction {
    /// Carriage return or line feed: the line is complete.
    Submit,
    /// Backspace or delete removed the last byte of the line.
    Erase,
    /// The key was refused: a control byte, an erase at the start of the
    /// line, or a printable byte when the line is full.
    Bell,
    /// The byte was appended to the line.
    Echo(u8),
}

/// The line, and the action, after key `b` on line `line` of capacity `cap`.
pub open spec fn edit(line: Seq<u8>, cap: nat, b: u8) -> (Seq<u8>, KeyAction) {
    if b == 0x0d || b == 0x0a {
        (line, KeyAction::Submit)
    } else if b == 0x08 || b == 0x7f {
        if line.len() > 0 {
            (line.drop_last(), KeyAction::Erase)
        } else {
            (line, KeyAction::Bell)
        }
    } else if b < 0x20 {
        (line, KeyAction::Bell)
    } else if line.len() < cap {
        (line.push(b), KeyAction::Echo(b))
    } else {
        (line, KeyAction::Bell)
    }
}

/// What the terminal is sent for an action: a newline, a rub-out of the last
/// character, the bell, or the byte itself.
pub open spec fn shown(a: KeyAction) -> Seq<u8> {
    match a {
        KeyAction::Submit => seq![0x0au8],
        KeyAction::Erase => seq![0x08u8, 0x20u8, 0x08u8],
        KeyAction::Bell => seq![0x07u8],
        KeyAction::Echo(b) => seq![b],
    }
}

/// The bytes to send to the terminal for `a`.
pub fn key_echo(a: KeyAction) -> (r: Vec<u8>)
    ensures
        r@ == shown(a),
{
    match a {
        KeyAction::Submit => vec![0x0a],
        KeyAction::Erase => vec![0x08, 0x20, 0x08],
        KeyAction::Bell => vec![0x07],
        KeyAction::Echo(b) => vec![b],
    }
}

/// The line being typed, held in storage lent by the caller.
pub struct LineEditor<'a> {
    line: StackVec<'a, u8>,
}

impl<'a> LineEditor<'a> {
    /// The bytes typed so far.
    pub closed spec fn view(&self) -> Seq<u8> {
        self.line@
    }

    /// How many bytes the line can hold.
    pub closed spec fn spec_capacity(&self) -> nat {
        self.line.spec_capacity()
    }

    pub closed spec fn well_formed(&self) -> bool {
        self.line.well_formed()
    }

    /// An empty line that can hold as many bytes as `storage` has.
    pub fn new(storage: &'a mut [u8]) -> (r: LineEditor<'a>)
        ensures
            r.well_formed(),
            r@ == Seq::<u8>::empty(),
            r.spec_capacity() == old(storage)@.len(),
    {
        LineEditor { line: StackVec::new(storage) }
    }

    /// Applies key `b` to the line.
    pub fn key(&mut self, b: u8) -> (r: KeyAction)
        requires
            old(self).well_formed(),
        ensures
            final(self).well_formed(),
            final(self).spec_capacity() == old(self).spec_capacity(),
            (final(self)@, r) == edit(old(self)@, old(self).spec_capacity(), b),
    {
        proof {
            self.line.lemma_len_le_capacity();
        }
        if b == 0x0d || b == 0x0a {
            KeyAction::Submit
        } else if b == 0x08 || b == 0x7f {
            match self.line.pop() {
                Some(_) => KeyAction::Erase,
                None => KeyAction::Bell,
            }
        } else if b < 0x20 {
            KeyAction::Bell
        } else {
            match self.line.push(b) {
                Ok(()) => KeyAction::Echo(b),
                Err(()) => KeyAction::Bell,
            }
        }
    }

    /// The bytes typed so far.
    pub fn line(&self) -> (r: &[u8])
        requires
            self.well_formed(),
        ensures
            r@ == self@,
    {
        self.line.as_slice()
    }

    /// Empties the line.
    pub fn clear(&mut self)
        requires
            old(self).well_formed(),
        ensures
            final(self).well_formed(),
            final(self).spec_capacity() == old(self).spec_capacity(),
            final(self)@ == Seq::<u8>::empty(),
    {
        self.line.truncate(0);
    }
}

} // verus!

verus! {

/// The arguments `ts` joined by single spaces.
pub open spec fn joined(ts: Seq<Seq<u8>>) -> Seq<u8>
    decreases ts.len(),
{
    if ts.len() == 0 {
        Seq::empty()
    } else if ts.len() == 1 {
        ts[0]
    } else {
        joined(ts.drop_last()) + seq![0x20u8] + ts.last()
    }
}

/// What the shell prints for the complete line `line`, and whether it leaves.
///
/// A line that is not valid UTF-8 counts as empty. An empty line prints
/// nothing. Then: too many arguments is reported; `echo` prints its other
/// arguments joined by spaces; `exit` says goodbye and leaves; any other
/// name is reported as unknown.
pub open spec fn respond(line: Seq<u8>) -> (Seq<u8>, bool) {
    let t = tokens(line);
    if !valid_utf8(line) || t.len() == 0 {
        (Seq::empty(), false)
    } else if t.len() > MAX_ARGS {
        ("error: too many arguments\n".spec_bytes(), false)
    } else if t[0] == "echo".spec_bytes() {
        (joined(t.drop_first()) + seq![0x0au8], false)
    } else if t[0] == "exit".spec_bytes() {
        ("exited.\n".spec_bytes(), true)
    } else {
        ("unknown command: ".spec_bytes() + t[0] + seq![0x0au8], false)
    }
}

/// What the shell sends back, and whether it has left.
pub struct Reply {
    pub output: Vec<u8>,
    pub exit: bool,
}

/// Relies on core::str::from_utf8: it succeeds exactly on valid UTF-8, and
/// the string it returns holds the same bytes.
#[verifier::external_body]
fn utf8_text(b: &[u8]) -> (r: Option<&str>)
    ensures
        r is Some <==> valid_utf8(b@),
        r matches Some(s) ==> s.spec_bytes() == b@,
{
    core::str::from_utf8(b).ok()
}

/// Appends `b` to `out`.
fn append(out: &mut Vec<u8>, b: &[u8])
    ensures
        final(out)@ == old(out)@ + b@,
{
    let mut i: usize = 0;
    while i < b.len()
        invariant
            i <= b@.len(),
            out@ == old(out)@ + b@.subrange(0, i as int),
        decreases b@.len() - i,
    {
        out.push(b[i]);
        i = i + 1;
        proof {
            assert(out@ =~= old(out)@ + b@.subrange(0, i as int));
        }
    }
    proof {
        assert(b@.subrange(0, i as int) =~= b@);
    }
}

/// Whether `a` and `b` hold the same bytes.
fn same_bytes(a: &[u8], b: &[u8]) -> (r: bool)
    ensures
        r == (a@ == b@),
{
    if a.len() != b.len() {
        return false;
    }
    let mut i: usize = 0;
    while i < a.len()
        invariant
            a@.len() == b@.len(),
            i <= a@.len(),
            forall|j: int| 0 <= j < i ==> a@[j] == b@[j],
        decreases a@.len() - i,
    {
        if a[i] != b[i] {
            return false;
        }
        i = i + 1;
    }
    proof {
        assert(a@ =~= b@);
    }
    true
}

/// The arguments of `args` after the first, joined by single spaces.
fn join_rest(args: &[&str]) -> (r: Vec<u8>)
    requires
        args@.len() > 0,
    ensures
        r@ == joined(bytes_of(args@).drop_first()),
{
    let ghost ts = bytes_of(args@);
    let mut out: Vec<u8> = Vec::new();
    let mut i: usize = 1;
    while i < args.len()
        invariant
            1 <= i <= args@.len(),
            ts == bytes_of(args@),
            out@ == joined(ts.subrange(1, i as int)),
        decreases args@.len() - i,
    {
        if i > 1 {
            out.push(0x20);
        }
        append(&mut out, args[i].as_bytes());
        proof {
            let next = ts.subrange(1, i + 1);
            assert(next.drop_last() =~= ts.subrange(1, i as int));
            assert(next.last() == args@[i as int].spec_bytes());
            if i == 1 {
                assert(next.len() == 1);
            }
        }
        i = i + 1;
    }
    proof {
        assert(ts.subrange(1, i as int) =~= ts.drop_first());
    }
    out
}

/// Runs the complete line `line`: what to print, and whether to leave.
pub fn run_line(line: &[u8]) -> (r: Reply)
    ensures
        (r.output@, r.exit) == respond(line@),
{
    let text = match utf8_text(line) {
        Some(t) => t,
        None => {
            return Reply { output: Vec::new(), exit: false };
        },
    };
    let mut storage: [&str; MAX_ARGS] = [""; MAX_ARGS];
    match Command::parse(text, &mut storage) {
        Err(Error::Empty) => Reply { output: Vec::new(), exit: false },
        Err(Error::TooManyArgs) => {
            let mut out: Vec<u8> = Vec::new();
            append(&mut out, "error: too many arguments\n".as_bytes());
            Reply { output: out, exit: false }
        },
        Ok(cmd) => {
            let name = cmd.path();
            if same_bytes(name.as_bytes(), "echo".as_bytes()) {
                let mut out = join_rest(cmd.args());
                out.push(0x0a);
                Reply { output: out, exit: false }
            } else if same_bytes(name.as_bytes(), "exit".as_bytes()) {
                let mut out: Vec<u8> = Vec::new();
                append(&mut out, "exited.\n".as_bytes());
                Reply { output: out, exit: true }
            } else {
                let mut out: Vec<u8> = Vec::new();
                append(&mut out, "unknown command: ".as_bytes());
                append(&mut out, name.as_bytes());
                out.push(0x0a);
                Reply { output: out, exit: false }
            }
        },
    }
}

} // verus!

verus! {

/// What the shell prints after key `b` on line `line` of capacity `cap`,
/// the line afterwards, and whether it leaves. A complete line is run and,
/// unless the shell leaves, followed by the prompt `prefix`.
pub open spec fn step(prefix: Seq<u8>, cap: nat, line: Seq<u8>, b: u8) -> (Seq<u8>, Seq<u8>, bool) {
    let (edited, a) = edit(line, cap, b);
    if a is Submit {
        let (reply, exit) = respond(edited);
        if exit {
            (shown(a) + reply, Seq::empty(), true)
        } else {
            (shown(a) + reply + prefix, Seq::empty(), false)
        }
    } else {
        (shown(a), edited, false)
    }
}

/// Everything the shell prints for the keys `input`, the line it is left
/// with, and whether it has left. It starts by printing the prompt and
/// reads nothing after it leaves.
pub open spec fn transcript(prefix: Seq<u8>, input: Seq<u8>) -> (Seq<u8>, Seq<u8>, bool)
    decreases input.len(),
{
    if input.len() == 0 {
        (prefix, Seq::empty(), false)
    } else {
        let (out, line, done) = transcript(prefix, input.drop_last());
        if done {
            (out, line, true)
        } else {
            let (more, next, exit) = step(prefix, LINE_CAPACITY as nat, line, input.last());
            (out + more, next, exit)
        }
    }
}

/// Once the shell has left, further keys change nothing.
pub proof fn lemma_transcript_after_exit(prefix: Seq<u8>, input: Seq<u8>, i: int)
    requires
        0 <= i <= input.len(),
        transcript(prefix, input.subrange(0, i)).2,
    ensures
        transcript(prefix, input) == transcript(prefix, input.subrange(0, i)),
    decreases input.len() - i,
{
    if i < input.len() {
        let longer = input.subrange(0, i + 1);
        assert(longer.drop_last() =~= input.subrange(0, i));
        lemma_transcript_after_exit(prefix, input, i + 1);
    } else {
        assert(input.subrange(0, i) =~= input);
    }
}

/// An interactive shell session: the prompt and the line being typed.
pub struct Session<'a> {
    prefix: &'a str,
    editor: LineEditor<'a>,
}

impl<'a> Session<'a> {
    /// The prompt, as bytes.
    pub closed spec fn spec_prefix(&self) -> Seq<u8> {
        self.prefix.spec_bytes()
    }

    /// The line being typed.
    pub closed spec fn view(&self) -> Seq<u8> {
        self.editor@
    }

    /// How many bytes a line can hold.
    pub closed spec fn spec_capacity(&self) -> nat {
        self.editor.spec_capacity()
    }

    pub closed spec fn well_formed(&self) -> bool {
        self.editor.well_formed()
    }

    /// A session with prompt `prefix` whose lines are held in `storage`.
    pub fn new(prefix: &'a str, storage: &'a mut [u8]) -> (r: Session<'a>)
        ensures
            r.well_formed(),
            r@ == Seq::<u8>::empty(),
            r.spec_prefix() == prefix.spec_bytes(),
            r.spec_capacity() == old(storage)@.len(),
    {
        Session { prefix, editor: LineEditor::new(storage) }
    }

    /// The first prompt.
    pub fn start(&self) -> (r: Vec<u8>)
        ensures
            r@ == self.spec_prefix(),
    {
        let mut out: Vec<u8> = Vec::new();
        append(&mut out, self.prefix.as_bytes());
        out
    }

    /// Handles key `b`: what to print, and whether the shell leaves.
    pub fn feed(&mut self, b: u8) -> (r: Reply)
        requires
            old(self).well_formed(),
        ensures
            final(self).well_formed(),
            final(self).spec_prefix() == old(self).spec_prefix(),
            final(self).spec_capacity() == old(self).spec_capacity(),
            (r.output@, final(self)@, r.exit) == step(
                old(self).spec_prefix(),
                old(self).spec_capacity(),
                old(self)@,
                b,
            ),
    {
        let a = self.editor.key(b);
        let mut out = key_echo(a);
        if let KeyAction::Submit = a {
            let reply = run_line(self.editor.line());
            self.editor.clear();
            append(&mut out, reply.output.as_slice());
            if !reply.exit {
                append(&mut out, self.prefix.as_bytes());
            }
            Reply { output: out, exit: reply.exit }
        } else {
            Reply { output: out, exit: false }
        }
    }
}

/// Runs a shell with prompt `prefix` on the keys `input`, until it leaves
/// or the keys run out; returns all it printed and whether it left.
pub fn shell(prefix: &str, input: &[u8]) -> (r: Reply)
    ensures
        r.output@ == transcript(prefix.spec_bytes(), input@).0,
        r.exit == transcript(prefix.spec_bytes(), input@).2,
{
    let mut storage: [u8; LINE_CAPACITY] = [0; LINE_CAPACITY];
    let mut session = Session::new(prefix, &mut storage);
    let mut out = session.start();
    let mut exit = false;
    let mut i: usize = 0;
    while i < input.len() && !exit
        invariant
            i <= input@.len(),
            session.well_formed(),
            session.spec_prefix() == prefix.spec_bytes(),
            session.spec_capacity() == LINE_CAPACITY,
            (out@, session@, exit) == transcript(prefix.spec_bytes(), input@.subrange(0, i as int)),
        decreases input@.len() - i,
    {
        let reply = session.feed(input[i]);
        proof {
            let next = input@.subrange(0, i + 1);
            assert(next.drop_last() =~= input@.subrange(0, i as int));
        }
        append(&mut out, reply.output.as_slice());
        exit = reply.exit;
        i = i + 1;
    }
    proof {
        if exit {
            lemma_transcript_after_exit(prefix.spec_bytes(), input@, i as int);
        } else {
            assert(input@.subrange(0, i as int) =~= input@);
        }
    }
    Reply { output: out, exit }
}

} // verus!
