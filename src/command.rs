use vstd::prelude::*;
use vstd::string::StringSliceAdditionalSpecFns;
use vstd::utf8::{is_char_boundary, length_of_first_scalar, pop_first_scalar, valid_utf8};

use crate::stack_vec::StackVec;

verus! {

/// Why a line could not be turned into a command.
#[derive(Debug, Clone, Copy, PartialEq, Eq, Structural)]
pub enum Error {
    /// The line holds no argument at all.
    Empty,
    /// The line holds more arguments than the argument storage has room for.
    TooManyArgs,
}

/// The bytes that separate arguments: space, tab, line feed, form feed and
/// carriage return.
pub open spec fn is_blank(b: u8) -> bool {
    b == 0x20 || b == 0x09 || b == 0x0a || b == 0x0c || b == 0x0d
}

/// The maximal runs of non-blank bytes of `s`, in order.
pub open spec fn tokens(s: Seq<u8>) -> Seq<Seq<u8>>
    decreases s.len(),
{
    if s.len() == 0 {
        Seq::empty()
    } else {
        let t = tokens(s.drop_last());
        let b = s.last();
        if is_blank(b) {
            t
        } else if s.len() >= 2 && !is_blank(s[s.len() - 2]) {
            t.drop_last().push(t.last().push(b))
        } else {
            t.push(seq![b])
        }
    }
}

/// The UTF-8 bytes of each string of `args`.
pub open spec fn bytes_of(args: Seq<&str>) -> Seq<Seq<u8>> {
    args.map_values(|a: &str| a.spec_bytes())
}

fn is_blank_byte(b: u8) -> (r: bool)
    ensures
        r == is_blank(b),
{
    b == 0x20 || b == 0x09 || b == 0x0a || b == 0x0c || b == 0x0d
}

/// A longer prefix never has fewer tokens.
proof fn lemma_tokens_prefix_len(s: Seq<u8>, i: int, k: int)
    requires
        0 <= i <= k <= s.len(),
    ensures
        tokens(s.subrange(0, i)).len() <= tokens(s.subrange(0, k)).len(),
    decreases k - i,
{
    if i < k {
        lemma_tokens_prefix_len(s, i, k - 1);
        assert(s.subrange(0, k).drop_last() =~= s.subrange(0, k - 1));
    }
}

/// The bytes `start..end` of `s` as a string slice, where both ends sit next
/// to an ASCII byte or at an end of `s`.
fn slice_between<'a>(s: &'a str, start: usize, end: usize) -> (r: &'a str)
    requires
        start <= end <= s.spec_bytes().len(),
        start == 0 || s.spec_bytes()[start - 1] < 0x80,
        end == s.spec_bytes().len() || s.spec_bytes()[end as int] < 0x80,
    ensures
        r.spec_bytes() == s.spec_bytes().subrange(start as int, end as int),
{
    proof {
        vstd::utf8::encode_utf8_valid_utf8(s@);
        if start > 0 {
            lemma_boundary_after_ascii(s.spec_bytes(), start as int);
        }
    }
    let (_, rest) = s.split_at(start);
    proof {
        vstd::utf8::encode_utf8_valid_utf8(rest@);
        if end < s.spec_bytes().len() {
            assert(rest.spec_bytes()[end - start] == s.spec_bytes()[end as int]);
        }
        lemma_boundary_at_ascii(rest.spec_bytes(), end - start);
    }
    let (tok, _) = rest.split_at(end - start);
    proof {
        assert(tok.spec_bytes() =~= s.spec_bytes().subrange(start as int, end as int));
    }
    tok
}

/// In a valid UTF-8 sequence, the position of an ASCII byte, and the end,
/// are character boundaries.
proof fn lemma_boundary_at_ascii(b: Seq<u8>, i: int)
    requires
        valid_utf8(b),
        0 <= i <= b.len(),
        i == b.len() || b[i] < 0x80,
    ensures
        is_char_boundary(b, i),
    decreases b.len(),
{
    if i > 0 {
        let l = length_of_first_scalar(b);
        let rest = pop_first_scalar(b);
        assert(l <= i);
        if i < b.len() {
            assert(rest[i - l] == b[i]);
        }
        lemma_boundary_at_ascii(rest, i - l);
    }
}

/// In a valid UTF-8 sequence, the position just after an ASCII byte is a
/// character boundary.
proof fn lemma_boundary_after_ascii(b: Seq<u8>, i: int)
    requires
        valid_utf8(b),
        0 < i <= b.len(),
        b[i - 1] < 0x80,
    ensures
        is_char_boundary(b, i),
    decreases b.len(),
{
    let l = length_of_first_scalar(b);
    let rest = pop_first_scalar(b);
    assert(l <= i);
    assert(valid_utf8(rest));
    if l < i {
        assert(rest[i - l - 1] == b[i - 1]);
        lemma_boundary_after_ascii(rest, i - l);
    } else {
        assert(is_char_boundary(rest, 0));
    }
}

} // verus!

verus! {

/// One shell command: its arguments, borrowed from the line they were read
/// from; the first argument is the command's name.
pub struct Command<'a> {
    args: StackVec<'a, &'a str>,
}

impl<'a> Command<'a> {
    /// The arguments, in order.
    pub closed spec fn view(&self) -> Seq<&'a str> {
        self.args@
    }

    /// The argument storage is consistent and holds at least one argument.
    pub closed spec fn well_formed(&self) -> bool {
        self.args.well_formed() && self.args@.len() > 0
    }

    /// Splits `s` into arguments at runs of blank bytes, keeping them in
    /// `buf`.
    ///
    /// Fails with `Error::TooManyArgs` when `s` has more arguments than `buf`
    /// has slots, and otherwise with `Error::Empty` when it has none.
    pub fn parse(s: &'a str, buf: &'a mut [&'a str]) -> (r: Result<Command<'a>, Error>)
        ensures
            tokens(s.spec_bytes()).len() > old(buf)@.len() ==> r == Err::<Command<'a>, Error>(
                Error::TooManyArgs,
            ),
            tokens(s.spec_bytes()).len() == 0 ==> r == Err::<Command<'a>, Error>(Error::Empty),
            0 < tokens(s.spec_bytes()).len() <= old(buf)@.len() ==> {
                &&& r is Ok
                &&& r->Ok_0.well_formed()
                &&& bytes_of(r->Ok_0@) == tokens(s.spec_bytes())
            },
    {
        let bytes = s.as_bytes();
        let n = bytes.len();
        let ghost cap = buf@.len();
        let mut args = StackVec::new(buf);
        proof {
            args.lemma_len_le_capacity();
        }
        let mut start: usize = 0;
        let mut in_token = false;
        let mut i: usize = 0;
        while i < n
            invariant
                bytes@ == s.spec_bytes(),
                n == bytes@.len(),
                i <= n,
                args.well_formed(),
                args.spec_capacity() == cap,
                cap == old(buf)@.len(),
                in_token ==> {
                    &&& start < i
                    &&& !is_blank(bytes@[i - 1])
                    &&& (start == 0 || is_blank(bytes@[start - 1]))
                    &&& tokens(bytes@.subrange(0, i as int)) == bytes_of(args@).push(
                        bytes@.subrange(start as int, i as int),
                    )
                },
                !in_token ==> {
                    &&& (i == 0 || is_blank(bytes@[i - 1]))
                    &&& tokens(bytes@.subrange(0, i as int)) == bytes_of(args@)
                },
            decreases n - i,
        {
            let b = bytes[i];
            let ghost prev = bytes@.subrange(0, i as int);
            let ghost next = bytes@.subrange(0, i + 1);
            proof {
                assert(next.drop_last() =~= prev);
            }
            if is_blank_byte(b) {
                if in_token {
                    let tok = slice_between(s, start, i);
                    let ghost before = args@;
                    if args.push(tok).is_err() {
                        proof {
                            args.lemma_len_le_capacity();
                            assert(bytes_of(before).len() == cap);
                            lemma_tokens_prefix_len(bytes@, i as int, n as int);
                            assert(bytes@.subrange(0, n as int) =~= bytes@);
                        }
                        return Err(Error::TooManyArgs);
                    }
                    proof {
                        assert(bytes_of(args@) =~= bytes_of(before).push(tok.spec_bytes()));
                    }
                }
                in_token = false;
            } else {
                if in_token {
                    proof {
                        assert(bytes@.subrange(start as int, i + 1) =~= bytes@.subrange(
                            start as int,
                            i as int,
                        ).push(b));
                        assert(tokens(prev).drop_last() =~= bytes_of(args@));
                    }
                } else {
                    start = i;
                    proof {
                        assert(bytes@.subrange(start as int, i + 1) =~= seq![b]);
                    }
                }
                in_token = true;
            }
            i = i + 1;
        }
        proof {
            assert(bytes@.subrange(0, n as int) =~= bytes@);
        }
        if in_token {
            let tok = slice_between(s, start, n);
            let ghost before = args@;
            if args.push(tok).is_err() {
                proof {
                    args.lemma_len_le_capacity();
                }
                return Err(Error::TooManyArgs);
            }
            proof {
                assert(bytes_of(args@) =~= bytes_of(before).push(tok.spec_bytes()));
            }
        }
        proof {
            args.lemma_len_le_capacity();
        }
        if args.is_empty() {
            return Err(Error::Empty);
        }
        Ok(Command { args })
    }

    /// The command's name: its first argument.
    pub fn path(&self) -> (r: &'a str)
        requires
            self.well_formed(),
        ensures
            r == self@[0],
    {
        *self.args.get(0)
    }

    /// All arguments, the name first.
    pub fn args(&self) -> (r: &[&'a str])
        requires
            self.well_formed(),
        ensures
            r@ == self@,
    {
        self.args.as_slice()
    }
}

} // verus!
