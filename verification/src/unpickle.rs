//! Running the pickle machine over a byte buffer.
use vstd::prelude::*;
use vstd::string::{StrSliceExecFns, StringExecFns};
use vstd::utf8::valid_utf8;

use crate::machine::{self, Machine, Outcome};
use crate::op;
use crate::sizes;
use crate::value::{
    PickleData, PickleValue, Unpickled, Value, lemma_models_of, lemma_pair_models_of, str_bytes,
    view_all, view_pairs, group_view_lemmas,
};

verus! {

broadcast use group_view_lemmas;

/// Why a stream could not be read.
#[derive(Debug, Clone, Copy, PartialEq, Eq)]
pub enum Error {
    TruncatedOpcode(u8),
    TruncatedData { op: u8, expected_len: usize },
    Eof,
    EmptyStack,
    UnsupportedOpcode(u8),
    InvalidUtf8,
    IndexOutOfRange { op: u8 },
    StackUnderflow { op: u8 },
    NoValueOnStack,
    NoMarkFound { op: u8 },
    SetitemWithoutDict { op: u8 },
    SetitemsWithoutDict { op: u8 },
    AppendsWithoutList { op: u8 },
    AdditemsWithoutSet { op: u8 },
    ReduceWithoutCallable { op: u8 },
    BuildWithoutObject { op: u8 },
    InvalidGlobal { op: u8 },
}

// ---------------------------------------------------------------------
// The text of an error

/// The lowercase hexadecimal digits, in order.
pub open spec fn hex_digits() -> Seq<char> {
    "0123456789abcdef"@
}

/// The digit of value `d`, below 16.
pub open spec fn digit(d: int) -> Seq<char> {
    hex_digits().subrange(d, d + 1)
}

/// The decimal digits of `n`, without leading zeros.
pub open spec fn decimal(n: nat) -> Seq<char>
    decreases n,
{
    if n < 10 {
        digit(n as int)
    } else {
        decimal(n / 10) + digit((n % 10) as int)
    }
}

/// `byte` as two lowercase hexadecimal digits.
pub open spec fn hex_byte(byte: u8) -> Seq<char> {
    digit((byte / 16) as int) + digit((byte % 16) as int)
}

/// `name { op: N }`.
pub open spec fn with_op(name: Seq<char>, op: u8) -> Seq<char> {
    name + " { op: "@ + decimal(op as nat) + " }"@
}

/// The error as `Debug` shows it: the variant's name and its fields, in
/// decimal.
pub open spec fn debug_text(e: Error) -> Seq<char> {
    match e {
        Error::TruncatedOpcode(op) => "TruncatedOpcode("@ + decimal(op as nat) + ")"@,
        Error::TruncatedData { op, expected_len } => "TruncatedData { op: "@ + decimal(op as nat)
            + ", expected_len: "@ + decimal(expected_len as nat) + " }"@,
        Error::Eof => "Eof"@,
        Error::EmptyStack => "EmptyStack"@,
        Error::UnsupportedOpcode(op) => "UnsupportedOpcode("@ + decimal(op as nat) + ")"@,
        Error::InvalidUtf8 => "InvalidUtf8"@,
        Error::IndexOutOfRange { op } => with_op("IndexOutOfRange"@, op),
        Error::StackUnderflow { op } => with_op("StackUnderflow"@, op),
        Error::NoValueOnStack => "NoValueOnStack"@,
        Error::NoMarkFound { op } => with_op("NoMarkFound"@, op),
        Error::SetitemWithoutDict { op } => with_op("SetitemWithoutDict"@, op),
        Error::SetitemsWithoutDict { op } => with_op("SetitemsWithoutDict"@, op),
        Error::AppendsWithoutList { op } => with_op("AppendsWithoutList"@, op),
        Error::AdditemsWithoutSet { op } => with_op("AdditemsWithoutSet"@, op),
        Error::ReduceWithoutCallable { op } => with_op("ReduceWithoutCallable"@, op),
        Error::BuildWithoutObject { op } => with_op("BuildWithoutObject"@, op),
        Error::InvalidGlobal { op } => with_op("InvalidGlobal"@, op),
    }
}

/// The message of an error: `unsupported opcode: 0x..` with the opcode in
/// two hexadecimal digits, else `UnpickleError: ` and the `Debug` text.
pub open spec fn message_text(e: Error) -> Seq<char> {
    match e {
        Error::UnsupportedOpcode(op) => "unsupported opcode: 0x"@ + hex_byte(op),
        _ => "UnpickleError: "@ + debug_text(e),
    }
}

/// Appends the digit `d` (below 16) to `s`.
fn push_digit(s: &mut String, d: usize)
    requires
        d < 16,
    ensures
        final(s)@ == old(s)@ + digit(d as int),
{
    let digits = "0123456789abcdef";
    proof {
        reveal_strlit("0123456789abcdef");
    }
    s.append(digits.substring_char(d, d + 1));
}

/// Appends the decimal digits of `n` to `s`.
fn push_decimal(s: &mut String, n: usize)
    ensures
        final(s)@ == old(s)@ + decimal(n as nat),
    decreases n,
{
    if n < 10 {
        push_digit(s, n);
    } else {
        let ghost before = s@;
        push_decimal(s, n / 10);
        push_digit(s, n % 10);
        assert(s@ =~= before + decimal(n as nat));
    }
}

/// Appends `name { op: N }` to `s`.
fn push_with_op(s: &mut String, name: &str, op: u8)
    ensures
        final(s)@ == old(s)@ + with_op(name@, op),
{
    let ghost before = s@;
    s.append(name);
    s.append(" { op: ");
    push_decimal(s, op as usize);
    s.append(" }");
    assert(s@ =~= before + with_op(name@, op));
}

impl Error {
    /// Appends the `Debug` text of the error to `s`.
    fn push_debug(&self, s: &mut String)
        ensures
            final(s)@ == old(s)@ + debug_text(*self),
    {
        let ghost before = s@;
        match *self {
            Error::TruncatedOpcode(op) => {
                s.append("TruncatedOpcode(");
                push_decimal(s, op as usize);
                s.append(")");
            },
            Error::TruncatedData { op, expected_len } => {
                s.append("TruncatedData { op: ");
                push_decimal(s, op as usize);
                s.append(", expected_len: ");
                push_decimal(s, expected_len);
                s.append(" }");
            },
            Error::Eof => s.append("Eof"),
            Error::EmptyStack => s.append("EmptyStack"),
            Error::UnsupportedOpcode(op) => {
                s.append("UnsupportedOpcode(");
                push_decimal(s, op as usize);
                s.append(")");
            },
            Error::InvalidUtf8 => s.append("InvalidUtf8"),
            Error::IndexOutOfRange { op } => push_with_op(s, "IndexOutOfRange", op),
            Error::StackUnderflow { op } => push_with_op(s, "StackUnderflow", op),
            Error::NoValueOnStack => s.append("NoValueOnStack"),
            Error::NoMarkFound { op } => push_with_op(s, "NoMarkFound", op),
            Error::SetitemWithoutDict { op } => push_with_op(s, "SetitemWithoutDict", op),
            Error::SetitemsWithoutDict { op } => push_with_op(s, "SetitemsWithoutDict", op),
            Error::AppendsWithoutList { op } => push_with_op(s, "AppendsWithoutList", op),
            Error::AdditemsWithoutSet { op } => push_with_op(s, "AdditemsWithoutSet", op),
            Error::ReduceWithoutCallable { op } => push_with_op(s, "ReduceWithoutCallable", op),
            Error::BuildWithoutObject { op } => push_with_op(s, "BuildWithoutObject", op),
            Error::InvalidGlobal { op } => push_with_op(s, "InvalidGlobal", op),
        }
        assert(s@ =~= before + debug_text(*self));
    }

    /// The message of the error: `unsupported opcode: 0x..` for an
    /// unsupported opcode, else `UnpickleError: ` followed by the `Debug`
    /// text of the error.
    pub fn message(&self) -> (r: String)
        ensures
            r@ == message_text(*self),
    {
        let mut s = String::new();
        match *self {
            Error::UnsupportedOpcode(op) => {
                s.append("unsupported opcode: 0x");
                push_digit(&mut s, (op / 16) as usize);
                push_digit(&mut s, (op % 16) as usize);
            },
            _ => {
                s.append("UnpickleError: ");
                self.push_debug(&mut s);
            },
        }
        assert(s@ =~= message_text(*self));
        s
    }
}

// ---------------------------------------------------------------------
// Stack helpers

/// The top value, taken off the stack, or `StackUnderflow` for `op` on an
/// empty stack, which is then left as it is.
pub fn pop_value<'a>(stack: &mut Vec<PickleValue<'a>>, op: u8) -> (r: Result<PickleValue<'a>, Error>)
    ensures
        old(stack)@.len() == 0 ==> r == Err::<PickleValue<'a>, Error>(Error::StackUnderflow { op })
            && final(stack)@ == old(stack)@,
        old(stack)@.len() > 0 ==> r == Ok::<PickleValue<'a>, Error>(old(stack)@.last())
            && final(stack)@ == old(stack)@.drop_last(),
{
    match stack.pop() {
        Some(v) => Ok(v),
        None => Err(Error::StackUnderflow { op }),
    }
}

/// The values above the last mark, taken off the stack together with the
/// mark, or `NoMarkFound` for `op` where there is no mark, and then stack
/// and marks are left as they are. A mark above the top of the stack is
/// left out by `requires`.
pub fn pop_to_mark<'a>(stack: &mut Vec<PickleValue<'a>>, marks: &mut Vec<usize>, op: u8) -> (r: Result<
    Vec<PickleValue<'a>>,
    Error,
>)
    requires
        old(marks)@.len() > 0 ==> old(marks)@.last() <= old(stack)@.len(),
    ensures
        old(marks)@.len() == 0 ==> r == Err::<Vec<PickleValue<'a>>, Error>(Error::NoMarkFound { op })
            && final(stack)@ == old(stack)@ && final(marks)@ == old(marks)@,
        old(marks)@.len() > 0 ==> (r matches Ok(items) && {
            let mark = old(marks)@.last() as int;
            &&& items@ == old(stack)@.subrange(mark, old(stack)@.len() as int)
            &&& final(stack)@ == old(stack)@.subrange(0, mark)
            &&& final(marks)@ == old(marks)@.drop_last()
        }),
{
    match marks.pop() {
        None => Err(Error::NoMarkFound { op }),
        Some(mark_pos) => Ok(stack.split_off(mark_pos)),
    }
}

// ---------------------------------------------------------------------
// The machine

/// The model of what `unpickle` returns.
pub open spec fn result_model(r: Result<PickleData, Error>) -> Result<Unpickled, Error> {
    match r {
        Ok(d) => Ok(d@),
        Err(e) => Err(e),
    }
}

/// The model of what `unpickle_checked` returns.
pub open spec fn checked_model(r: Option<Result<PickleData, Error>>) -> Option<Result<Unpickled, Error>> {
    match r {
        Some(x) => Some(result_model(x)),
        None => None,
    }
}

/// `std::str::from_utf8`: the bytes as a string slice where they are
/// valid UTF-8. Its documentation promises an error exactly on invalid
/// UTF-8 and, on success, a string slice over the same bytes.
#[verifier::external_body]
fn utf8_str<'a>(bytes: &'a [u8]) -> (r: Option<&'a str>)
    ensures
        r is Some <==> valid_utf8(bytes@),
        r matches Some(s) ==> str_bytes(s) == bytes@,
{
    match std::str::from_utf8(bytes) {
        Ok(s) => Some(s),
        Err(_) => None,
    }
}

/// Where one opcode leaves the machine.
enum StepResult<'a> {
    Continue,
    Done(Result<PickleData<'a>, Error>),
    Crash,
}

/// `r` with the machine `after` is what the model `o` says.
spec fn step_matches(r: StepResult, after: Machine, o: Outcome) -> bool {
    match o {
        Outcome::Running(m2) => r is Continue && after == m2,
        Outcome::Finished(res) => (r matches StepResult::Done(x) && result_model(x) == res),
        Outcome::Crashed => r is Crash,
    }
}

/// The machine, with values that borrow from the input.
struct State<'a> {
    pos: usize,
    stack: Vec<PickleValue<'a>>,
    marks: Vec<usize>,
    memo: Vec<PickleValue<'a>>,
    proto: u8,
    frame: [u8; 8],
}

impl<'a> State<'a> {
    spec fn model(&self) -> Machine {
        Machine {
            pos: self.pos as int,
            stack: view_all(self.stack@),
            marks: self.marks@,
            memo: view_all(self.memo@),
            proto: self.proto,
            frame: self.frame@,
        }
    }

    fn new() -> (s: Self)
        ensures
            s.model() == machine::initial_machine(),
    {
        let s = State {
            pos: 0,
            stack: Vec::new(),
            marks: Vec::new(),
            memo: Vec::new(),
            proto: 0,
            frame: [0u8, 0, 0, 0, 0, 0, 0, 0],
        };
        assert(s.frame@ =~= Seq::new(8, |i: int| 0u8));
        assert(view_all(s.stack@) =~= Seq::empty());
        assert(view_all(s.memo@) =~= Seq::empty());
        assert(s.model() =~= machine::initial_machine());
        s
    }

    fn push_value(&mut self, v: PickleValue<'a>)
        ensures
            final(self).model() == machine::push(old(self).model(), v@),
    {
        self.stack.push(v);
    }

    /// The top value, taken off the stack.
    fn pop_value(&mut self, op: u8) -> (r: Result<PickleValue<'a>, Error>)
        ensures
            old(self).stack@.len() == 0 ==> r == Err::<PickleValue<'a>, Error>(Error::StackUnderflow { op })
                && final(self).model() == old(self).model(),
            old(self).stack@.len() > 0 ==> (r matches Ok(v) && v@ == old(self).model().stack.last()
                && final(self).model() == machine::drop_top(old(self).model())
                && final(self).stack@.len() == old(self).stack@.len() - 1),
    {
        let r = pop_value(&mut self.stack, op);
        proof {
            if old(self).stack@.len() > 0 {
                assert(view_all(self.stack@) =~= view_all(old(self).stack@).drop_last());
            }
        }
        r
    }

    /// The values above the last mark, taken off the stack, with the mark.
    /// `None` where the mark lies above the top of the stack.
    fn pop_to_mark(&mut self, op: u8) -> (r: Option<Result<Vec<PickleValue<'a>>, Error>>)
        ensures
            old(self).marks@.len() == 0 ==> r == Some(Err::<Vec<PickleValue<'a>>, Error>(Error::NoMarkFound { op })),
            old(self).marks@.len() > 0 && old(self).marks@.last() > old(self).stack@.len() ==> r is None,
            old(self).marks@.len() > 0 && old(self).marks@.last() <= old(self).stack@.len() ==> {
                let m = old(self).model();
                let mark = m.marks.last() as int;
                &&& (r matches Some(Ok(items)) && view_all(items@) == m.stack.subrange(mark, m.stack.len() as int))
                &&& final(self).model() == machine::below_mark(m)
            },
    {
        if self.marks.len() > 0 && self.marks[self.marks.len() - 1] > self.stack.len() {
            return None;
        }
        let r = pop_to_mark(&mut self.stack, &mut self.marks, op);
        Some(r)
    }
}

/// `memo[idx] = v`, where the memo is first grown with `None` values if it
/// is too short.
fn memo_put<'a>(memo: &mut Vec<PickleValue<'a>>, idx: usize, v: PickleValue<'a>)
    ensures
        view_all(final(memo)@) == machine::memo_put(view_all(old(memo)@), idx as int, v@),
{
    if idx >= memo.len() {
        while memo.len() <= idx
            invariant
                old(memo)@.len() <= memo@.len() <= idx + 1,
                memo@.subrange(0, old(memo)@.len() as int) == old(memo)@,
                forall|i: int| old(memo)@.len() <= i < memo@.len() ==> memo@[i]@ == Value::NoneValue,
            decreases idx + 1 - memo@.len(),
        {
            memo.push(PickleValue::NoneValue);
        }
    }
    memo.set(idx, v);
    assert(view_all(memo@) =~= machine::memo_put(view_all(old(memo)@), idx as int, v@));
}

/// The `len` bytes at `pos` and the position after them.
fn read_fixed<'a>(data: &'a [u8], pos: usize, len: usize, op: u8) -> (r: Result<(&'a [u8], usize), Error>)
    requires
        pos <= data@.len(),
    ensures
        match machine::read_fixed(data@, pos as int, len as int, op) {
            Err(e) => r == Err::<(&'a [u8], usize), Error>(e),
            Ok((b, p)) => (r matches Ok((rb, rp)) && rb@ == b && rp == p),
        },
{
    if len > data.len() - pos {
        Err(Error::TruncatedOpcode(op))
    } else {
        Ok((&data[pos..pos + len], pos + len))
    }
}

/// Little-endian unsigned value of four bytes.
fn le_u32(b: &[u8]) -> (r: u32)
    requires
        b@.len() == 4,
    ensures
        r == machine::le_u32(b@),
{
    b[0] as u32 + b[1] as u32 * 0x100 + b[2] as u32 * 0x1_0000 + b[3] as u32 * 0x100_0000
}

/// A byte string preceded by its length, which takes one byte or four.
fn read_prefixed<'a>(data: &'a [u8], pos: usize, width: usize, op: u8) -> (r: Result<(&'a [u8], usize), Error>)
    requires
        pos <= data@.len(),
        width == 1 || width == 4,
    ensures
        match machine::read_prefixed(data@, pos as int, width as int, op) {
            Err(e) => r == Err::<(&'a [u8], usize), Error>(e),
            Ok((b, p)) => (r matches Ok((rb, rp)) && rb@ == b && rp == p),
        },
{
    let (prefix, start) = read_fixed(data, pos, width, op)?;
    let n: usize = if width == 1 { prefix[0] as usize } else { le_u32(prefix) as usize };
    if n > data.len() - start {
        Err(Error::TruncatedData { op, expected_len: n })
    } else {
        Ok((&data[start..start + n], start + n))
    }
}

/// The index of the first newline byte of `s`.
fn find_newline(s: &[u8]) -> (r: Option<usize>)
    ensures
        match r {
            Some(i) => machine::first_newline(s@) == Some(i as int),
            None => machine::first_newline(s@) is None,
        },
{
    let mut i: usize = 0;
    while i < s.len()
        invariant
            i <= s@.len(),
            forall|j: int| 0 <= j < i ==> s@[j] != 0x0a,
        decreases s@.len() - i,
    {
        if s[i] == 0x0a {
            proof {
                assert(machine::is_first_newline(s@, i as int));
                machine::lemma_first_newline(s@);
                let k = machine::first_newline(s@)->0;
                assert(machine::is_first_newline(s@, k));
                if k < i {
                    assert(s@[k] != 0x0a);
                }
                if k > i {
                    assert(s@[i as int] != 0x0a);
                }
            }
            return Some(i);
        }
        i = i + 1;
    }
    proof {
        if machine::first_newline(s@) is Some {
            machine::lemma_first_newline(s@);
        }
    }
    None
}

impl<'a> State<'a> {
    fn op_stop(&mut self) -> (r: StepResult<'a>)
        ensures
            step_matches(r, final(self).model(), machine::op_stop(old(self).model())),
    {
        match self.stack.pop() {
            None => StepResult::Done(Err(Error::EmptyStack)),
            Some(root) => StepResult::Done(Ok(PickleData { proto: self.proto, frame: self.frame, root })),
        }
    }

    fn op_proto(&mut self, data: &'a [u8], op: u8) -> (r: StepResult<'a>)
        requires
            old(self).pos <= data@.len(),
        ensures
            step_matches(r, final(self).model(), machine::op_proto(data@, old(self).model(), op)),
    {
        match read_fixed(data, self.pos, sizes::PROTO_LEN, op) {
            Err(e) => StepResult::Done(Err(e)),
            Ok((b, pos)) => {
                self.pos = pos;
                self.proto = b[0];
                StepResult::Continue
            },
        }
    }

    fn op_frame(&mut self, data: &'a [u8], op: u8) -> (r: StepResult<'a>)
        requires
            old(self).pos <= data@.len(),
        ensures
            step_matches(r, final(self).model(), machine::op_frame(data@, old(self).model(), op)),
    {
        match read_fixed(data, self.pos, sizes::FRAME_LEN, op) {
            Err(e) => StepResult::Done(Err(e)),
            Ok((b, pos)) => {
                self.pos = pos;
                self.frame = [b[0], b[1], b[2], b[3], b[4], b[5], b[6], b[7]];
                assert(self.frame@ =~= b@);
                StepResult::Continue
            },
        }
    }

    /// Pushes a value that needs no operand.
    fn op_push(&mut self, v: PickleValue<'a>) -> (r: StepResult<'a>)
        ensures
            step_matches(r, final(self).model(), Outcome::Running(machine::push(old(self).model(), v@))),
    {
        self.push_value(v);
        StepResult::Continue
    }

    fn op_int(&mut self, data: &'a [u8], op: u8, len: usize) -> (r: StepResult<'a>)
        requires
            old(self).pos <= data@.len(),
            len == 1 || len == 2 || len == 4,
        ensures
            step_matches(r, final(self).model(), machine::op_int(data@, old(self).model(), op, len as int)),
    {
        match read_fixed(data, self.pos, len, op) {
            Err(e) => StepResult::Done(Err(e)),
            Ok((b, pos)) => {
                let v: i64 = if len == 1 {
                    b[0] as i64
                } else if len == 2 {
                    b[0] as i64 + b[1] as i64 * 0x100
                } else {
                    let u = le_u32(b);
                    if u >= 0x8000_0000 {
                        u as i64 - 0x1_0000_0000
                    } else {
                        u as i64
                    }
                };
                self.pos = pos;
                self.push_value(PickleValue::Int(v));
                StepResult::Continue
            },
        }
    }

    fn op_binfloat(&mut self, data: &'a [u8], op: u8) -> (r: StepResult<'a>)
        requires
            old(self).pos <= data@.len(),
        ensures
            step_matches(r, final(self).model(), machine::op_binfloat(data@, old(self).model(), op)),
    {
        match read_fixed(data, self.pos, sizes::BINFLOAT_LEN, op) {
            Err(e) => StepResult::Done(Err(e)),
            Ok((b, pos)) => {
                let bits: u64 = b[0] as u64 * 0x100_0000_0000_0000 + b[1] as u64 * 0x1_0000_0000_0000
                    + b[2] as u64 * 0x100_0000_0000 + b[3] as u64 * 0x1_0000_0000 + b[4] as u64 * 0x100_0000
                    + b[5] as u64 * 0x1_0000 + b[6] as u64 * 0x100 + b[7] as u64;
                self.pos = pos;
                self.push_value(PickleValue::Float(bits));
                StepResult::Continue
            },
        }
    }

    fn op_prefixed(&mut self, data: &'a [u8], op: u8, width: usize) -> (r: StepResult<'a>)
        requires
            old(self).pos <= data@.len(),
            width == 1 || width == 4,
        ensures
            step_matches(r, final(self).model(), machine::op_prefixed(data@, old(self).model(), op, width as int)),
    {
        match read_prefixed(data, self.pos, width, op) {
            Err(e) => StepResult::Done(Err(e)),
            Ok((b, pos)) => {
                if op == op::LONG1 {
                    self.pos = pos;
                    self.push_value(PickleValue::BigInt(b));
                    StepResult::Continue
                } else if op == op::SHORT_BINBYTES || op == op::BINBYTES {
                    self.pos = pos;
                    self.push_value(PickleValue::Bytes(b));
                    StepResult::Continue
                } else {
                    match utf8_str(b) {
                        None => StepResult::Done(Err(Error::InvalidUtf8)),
                        Some(s) => {
                            self.pos = pos;
                            self.push_value(PickleValue::String(s));
                            StepResult::Continue
                        },
                    }
                }
            },
        }
    }

    fn op_small_tuple(&mut self, op: u8, n: usize) -> (r: StepResult<'a>)
        requires
            1 <= n <= 3,
        ensures
            step_matches(r, final(self).model(), machine::op_small_tuple(old(self).model(), op, n as int)),
    {
        if self.stack.len() < n {
            return StepResult::Done(Err(Error::StackUnderflow { op }));
        }
        let k = self.stack.len() - n;
        let items = self.stack.split_off(k);
        self.push_value(PickleValue::Tuple(items));
        proof {
            lemma_models_of(items@);
        }
        StepResult::Continue
    }

    fn op_mark(&mut self) -> (r: StepResult<'a>)
        ensures
            step_matches(
                r,
                final(self).model(),
                Outcome::Running(Machine { marks: old(self).model().marks.push(old(self).model().stack.len() as usize), ..old(self).model() }),
            ),
    {
        let n = self.stack.len();
        self.marks.push(n);
        StepResult::Continue
    }

    fn op_memoize(&mut self) -> (r: StepResult<'a>)
        ensures
            step_matches(r, final(self).model(), machine::op_memoize(old(self).model())),
    {
        let n = self.stack.len();
        if n == 0 {
            return StepResult::Done(Err(Error::NoValueOnStack));
        }
        let top = self.stack[n - 1].clone();
        self.memo.push(top);
        StepResult::Continue
    }

    fn op_dup(&mut self) -> (r: StepResult<'a>)
        ensures
            step_matches(r, final(self).model(), machine::op_dup(old(self).model())),
    {
        let n = self.stack.len();
        if n == 0 {
            return StepResult::Done(Err(Error::NoValueOnStack));
        }
        let top = self.stack[n - 1].clone();
        self.push_value(top);
        StepResult::Continue
    }

    fn op_pop(&mut self) -> (r: StepResult<'a>)
        ensures
            step_matches(r, final(self).model(), machine::op_pop(old(self).model())),
    {
        let _ = self.pop_value(op::POP);
        StepResult::Continue
    }

    fn op_binpersid(&mut self, op: u8) -> (r: StepResult<'a>)
        ensures
            step_matches(r, final(self).model(), machine::op_binpersid(old(self).model(), op)),
    {
        match self.pop_value(op) {
            Err(e) => StepResult::Done(Err(e)),
            Ok(pid) => {
                self.push_value(pid);
                assert(self.model() =~= old(self).model());
                StepResult::Continue
            },
        }
    }

    fn op_get(&mut self, data: &'a [u8], op: u8, len: usize) -> (r: StepResult<'a>)
        requires
            old(self).pos <= data@.len(),
            len == 1 || len == 4,
        ensures
            step_matches(r, final(self).model(), machine::op_get(data@, old(self).model(), op, len as int)),
    {
        match read_fixed(data, self.pos, len, op) {
            Err(e) => StepResult::Done(Err(e)),
            Ok((b, pos)) => {
                let idx: usize = if len == 1 { b[0] as usize } else { le_u32(b) as usize };
                if idx >= self.memo.len() {
                    return StepResult::Done(Err(Error::IndexOutOfRange { op }));
                }
                let v = self.memo[idx].clone();
                self.pos = pos;
                self.push_value(v);
                StepResult::Continue
            },
        }
    }

    fn op_put(&mut self, data: &'a [u8], op: u8, len: usize) -> (r: StepResult<'a>)
        requires
            old(self).pos <= data@.len(),
            len == 1 || len == 4,
        ensures
            step_matches(r, final(self).model(), machine::op_put(data@, old(self).model(), op, len as int)),
    {
        match read_fixed(data, self.pos, len, op) {
            Err(e) => StepResult::Done(Err(e)),
            Ok((b, pos)) => {
                let idx: usize = if len == 1 { b[0] as usize } else { le_u32(b) as usize };
                let n = self.stack.len();
                if n == 0 {
                    return StepResult::Done(Err(Error::NoValueOnStack));
                }
                let top = self.stack[n - 1].clone();
                memo_put(&mut self.memo, idx, top);
                self.pos = pos;
                StepResult::Continue
            },
        }
    }
}

/// The error that a mark-consuming opcode gives when the value below the
/// mark is not a container of its kind.
fn mark_error(op: u8) -> (e: Error)
    ensures
        e == machine::mark_error(op),
{
    if op == op::SETITEMS {
        Error::SetitemsWithoutDict { op }
    } else if op == op::APPENDS {
        Error::AppendsWithoutList { op }
    } else {
        Error::AdditemsWithoutSet { op }
    }
}

/// Consecutive items paired as dictionary entries; an odd last key gets
/// `None` as its value.
fn pair_items<'a>(items: Vec<PickleValue<'a>>) -> (r: Vec<(PickleValue<'a>, PickleValue<'a>)>)
    ensures
        view_pairs(r@) == machine::pair_up(view_all(items@)),
{
    let ghost orig = view_all(items@);
    let n = items.len();
    let mut items = items;
    let mut rev: Vec<PickleValue<'a>> = Vec::new();
    while items.len() > 0
        invariant
            n == orig.len(),
            items@.len() + rev@.len() == n,
            view_all(items@) == orig.subrange(0, items@.len() as int),
            forall|i: int| 0 <= i < rev@.len() ==> #[trigger] rev@[i]@ == orig[n - 1 - i],
        decreases items@.len(),
    {
        proof {
            let l = items@.len() - 1;
            assert(view_all(items@)[l] == orig.subrange(0, items@.len() as int)[l]);
        }
        let x = items.pop().unwrap();
        rev.push(x);
    }
    let mut pairs: Vec<(PickleValue<'a>, PickleValue<'a>)> = Vec::new();
    assert(orig.subrange(0, n as int) =~= orig);
    while rev.len() > 0
        invariant
            n == orig.len(),
            rev@.len() <= n,
            forall|i: int| 0 <= i < rev@.len() ==> #[trigger] rev@[i]@ == orig[n - 1 - i],
            view_pairs(pairs@) + machine::pair_up(orig.subrange(n - rev@.len(), n as int)) == machine::pair_up(orig),
        decreases rev@.len(),
    {
        let ghost c = n - rev@.len();
        let ghost tail = orig.subrange(c, n as int);
        let key = rev.pop().unwrap();
        let value = match rev.pop() {
            Some(v) => v,
            None => PickleValue::NoneValue,
        };
        proof {
            if tail.len() == 1 {
                assert(machine::pair_up(tail) == seq![(tail[0], Value::NoneValue)]);
                assert(orig.subrange(n - rev@.len(), n as int) =~= Seq::<Value>::empty());
            } else {
                assert(tail.subrange(2, tail.len() as int) =~= orig.subrange(n - rev@.len(), n as int));
            }
        }
        pairs.push((key, value));
        proof {
            let p = pairs@;
            assert(view_pairs(p) + machine::pair_up(orig.subrange(n - rev@.len(), n as int)) =~= view_pairs(p.drop_last()) + machine::pair_up(tail));
        }
    }
    assert(orig.subrange(n as int, n as int) =~= Seq::<Value>::empty());
    assert(view_pairs(pairs@) =~= view_pairs(pairs@) + Seq::<(Value, Value)>::empty());
    pairs
}

impl<'a> State<'a> {
    fn op_setitem(&mut self, op: u8) -> (r: StepResult<'a>)
        ensures
            step_matches(r, final(self).model(), machine::op_setitem(old(self).model(), op)),
    {
        let value = match self.pop_value(op) {
            Err(e) => return StepResult::Done(Err(e)),
            Ok(v) => v,
        };
        let key = match self.pop_value(op) {
            Err(e) => return StepResult::Done(Err(e)),
            Ok(v) => v,
        };
        let ghost rest = self.stack@;
        match self.stack.pop() {
            Some(PickleValue::Dict(entries)) => {
                let ghost old_entries = entries@;
                let mut entries = entries;
                entries.push((key, value));
                self.stack.push(PickleValue::Dict(entries));
                proof {
                    lemma_pair_models_of(old_entries);
                    lemma_pair_models_of(entries@);
                    let m = old(self).model();
                    let n = m.stack.len();
                    let vrest = m.stack.subrange(0, n - 2);
                    assert(vrest =~= view_all(rest));
                    assert(view_all(self.stack@) =~= vrest.update(vrest.len() - 1, Value::Dict(view_pairs(old_entries).push((m.stack[n - 2], m.stack[n - 1])))));
                }
                StepResult::Continue
            },
            _ => {
                proof {
                    let m = old(self).model();
                    assert(m.stack.subrange(0, m.stack.len() - 2) =~= view_all(rest));
                }
                StepResult::Done(Err(Error::SetitemWithoutDict { op }))
            },
        }
    }

    fn op_append(&mut self, op: u8) -> (r: StepResult<'a>)
        ensures
            step_matches(r, final(self).model(), machine::op_append(old(self).model(), op)),
    {
        let item = match self.pop_value(op) {
            Err(e) => return StepResult::Done(Err(e)),
            Ok(v) => v,
        };
        let ghost rest = self.stack@;
        match self.stack.pop() {
            Some(PickleValue::List(list)) => {
                let ghost old_list = list@;
                let mut list = list;
                list.push(item);
                self.stack.push(PickleValue::List(list));
                proof {
                    lemma_models_of(old_list);
                    lemma_models_of(list@);
                    let m = old(self).model();
                    let vrest = m.stack.drop_last();
                    assert(vrest =~= view_all(rest));
                    assert(view_all(self.stack@) =~= vrest.update(vrest.len() - 1, Value::List(view_all(old_list).push(m.stack.last()))));
                }
                StepResult::Continue
            },
            _ => {
                proof {
                    let m = old(self).model();
                    assert(m.stack.drop_last() =~= view_all(rest));
                }
                StepResult::Done(Err(Error::AppendsWithoutList { op }))
            },
        }
    }

    fn op_build(&mut self, op: u8) -> (r: StepResult<'a>)
        ensures
            step_matches(r, final(self).model(), machine::op_build(old(self).model(), op)),
    {
        let state = match self.pop_value(op) {
            Err(e) => return StepResult::Done(Err(e)),
            Ok(v) => v,
        };
        let ghost rest = self.stack@;
        match self.stack.pop() {
            Some(PickleValue::Object { module, attr, args, state: _ }) => {
                self.stack.push(PickleValue::Object { module, attr, args, state: Box::new(state) });
                proof {
                    let m = old(self).model();
                    let vrest = m.stack.drop_last();
                    assert(vrest =~= view_all(rest));
                    assert(view_all(self.stack@) =~= vrest.update(
                        vrest.len() - 1,
                        Value::Object {
                            module: str_bytes(module),
                            attr: str_bytes(attr),
                            args: crate::value::models_of(args@),
                            state: Box::new(m.stack.last()),
                        },
                    ));
                }
                StepResult::Continue
            },
            _ => {
                proof {
                    let m = old(self).model();
                    assert(m.stack.drop_last() =~= view_all(rest));
                }
                StepResult::Done(Err(Error::BuildWithoutObject { op }))
            },
        }
    }

    fn op_stack_global(&mut self, op: u8) -> (r: StepResult<'a>)
        ensures
            step_matches(r, final(self).model(), machine::op_stack_global(old(self).model(), op)),
    {
        let attr_val = match self.pop_value(op) {
            Err(e) => return StepResult::Done(Err(e)),
            Ok(v) => v,
        };
        let module_val = match self.pop_value(op) {
            Err(e) => return StepResult::Done(Err(e)),
            Ok(v) => v,
        };
        match (module_val, attr_val) {
            (PickleValue::String(module), PickleValue::String(attr)) => {
                self.push_value(PickleValue::Global { module, attr });
                proof {
                    let m = old(self).model();
                    assert(self.model().stack =~= m.stack.subrange(0, m.stack.len() - 2).push(
                        Value::Global { module: str_bytes(module), attr: str_bytes(attr) },
                    ));
                }
                StepResult::Continue
            },
            _ => StepResult::Done(Err(Error::InvalidGlobal { op })),
        }
    }

    fn op_call(&mut self, op: u8, n: usize) -> (r: StepResult<'a>)
        requires
            n == 2 || n == 3,
        ensures
            step_matches(r, final(self).model(), machine::op_call(old(self).model(), op, n as int)),
    {
        if n == 3 {
            match self.pop_value(op) {
                Err(e) => return StepResult::Done(Err(e)),
                Ok(_kwargs) => {},
            }
        }
        let args_val = match self.pop_value(op) {
            Err(e) => return StepResult::Done(Err(e)),
            Ok(v) => v,
        };
        let callable = match self.pop_value(op) {
            Err(e) => return StepResult::Done(Err(e)),
            Ok(v) => v,
        };
        let ghost vargs = args_val@;
        proof {
            let m = old(self).model();
            let k = m.stack.len() - n;
            assert(self.model().stack =~= m.stack.subrange(0, k));
            assert(vargs == m.stack[k + 1]);
            assert(callable@ == m.stack[k]);
        }
        match callable {
            PickleValue::Global { module, attr } => {
                let args = match args_val {
                    PickleValue::Tuple(items) => items,
                    other => vec![other],
                };
                proof {
                    lemma_models_of(args@);
                    assert(view_all(args@) =~= machine::call_args(vargs));
                }
                let obj = PickleValue::Object { module, attr, args, state: Box::new(PickleValue::NoneValue) };
                assert(crate::value::model_of(PickleValue::NoneValue) == Value::NoneValue);
                self.push_value(obj);
                proof {
                    let m = old(self).model();
                    assert(m.stack[m.stack.len() - n + 1] == vargs);
                }
                StepResult::Continue
            },
            _ => StepResult::Done(Err(Error::ReduceWithoutCallable { op })),
        }
    }

    fn op_global(&mut self, data: &'a [u8]) -> (r: StepResult<'a>)
        requires
            old(self).pos <= data@.len(),
        ensures
            step_matches(r, final(self).model(), machine::op_global(data@, old(self).model())),
    {
        let rest = &data[self.pos..data.len()];
        let first = match find_newline(rest) {
            None => return StepResult::Done(Err(Error::Eof)),
            Some(i) => i,
        };
        proof {
            machine::lemma_first_newline(rest@);
        }
        let after = &rest[first + 1..rest.len()];
        let second = match find_newline(after) {
            None => return StepResult::Done(Err(Error::Eof)),
            Some(j) => j,
        };
        proof {
            machine::lemma_first_newline(after@);
        }
        let module = match utf8_str(&rest[0..first]) {
            None => return StepResult::Done(Err(Error::InvalidUtf8)),
            Some(s) => s,
        };
        let attr = match utf8_str(&after[0..second]) {
            None => return StepResult::Done(Err(Error::InvalidUtf8)),
            Some(s) => s,
        };
        self.pos = self.pos + first + 1 + second + 1;
        self.push_value(PickleValue::Global { module, attr });
        StepResult::Continue
    }

    fn op_to_mark(&mut self, op: u8) -> (r: StepResult<'a>)
        ensures
            step_matches(r, final(self).model(), machine::op_to_mark(old(self).model(), op)),
    {
        let items = match self.pop_to_mark(op) {
            None => return StepResult::Crash,
            Some(Err(e)) => return StepResult::Done(Err(e)),
            Some(Ok(items)) => items,
        };
        proof {
            lemma_models_of(items@);
        }
        if op == op::FROZENSET {
            self.push_value(PickleValue::FrozenSet(items));
            return StepResult::Continue;
        } else if op == op::TUPLE {
            self.push_value(PickleValue::Tuple(items));
            return StepResult::Continue;
        } else if op == op::POP_MARK {
            return StepResult::Continue;
        }
        let ghost below = self.stack@;
        let ghost vitems = view_all(items@);
        match self.stack.pop() {
            None => StepResult::Done(Err(mark_error(op))),
            Some(top) => {
                let ghost vtop = top@;
                let new_top = if op == op::SETITEMS {
                    match top {
                        PickleValue::Dict(entries) => {
                            let ghost old_entries = entries@;
                            let mut entries = entries;
                            let mut pairs = pair_items(items);
                            entries.append(&mut pairs);
                            proof {
                                lemma_pair_models_of(old_entries);
                                lemma_pair_models_of(entries@);
                            }
                            PickleValue::Dict(entries)
                        },
                        _ => return StepResult::Done(Err(mark_error(op))),
                    }
                } else if op == op::APPENDS {
                    match top {
                        PickleValue::List(list) => {
                            let ghost old_list = list@;
                            let mut list = list;
                            let mut items = items;
                            list.append(&mut items);
                            proof {
                                lemma_models_of(old_list);
                                lemma_models_of(list@);
                            }
                            PickleValue::List(list)
                        },
                        _ => return StepResult::Done(Err(mark_error(op))),
                    }
                } else {
                    match top {
                        PickleValue::MutableSet(set) => {
                            let ghost old_set = set@;
                            let mut set = set;
                            let mut items = items;
                            set.append(&mut items);
                            proof {
                                lemma_models_of(old_set);
                                lemma_models_of(set@);
                            }
                            PickleValue::MutableSet(set)
                        },
                        _ => return StepResult::Done(Err(mark_error(op))),
                    }
                };
                assert(machine::extend_top(vtop, op, vitems) == Some(new_top@));
                self.stack.push(new_top);
                proof {
                    let vb = view_all(below);
                    assert(view_all(self.stack@) =~= vb.update(vb.len() - 1, new_top@));
                }
                StepResult::Continue
            },
        }
    }
}

impl<'a> State<'a> {
    /// Reads the opcode at `pos` and applies it.
    fn step(&mut self, data: &'a [u8]) -> (r: StepResult<'a>)
        requires
            old(self).pos < data@.len(),
        ensures
            step_matches(r, final(self).model(), machine::step(data@, old(self).model())),
    {
        let op = data[self.pos];
        self.pos = self.pos + 1;
        if op == op::STOP {
            self.op_stop()
        } else if op == op::PROTO {
            self.op_proto(data, op)
        } else if op == op::FRAME {
            self.op_frame(data, op)
        } else if op == op::NONE {
            assert(crate::value::model_of(PickleValue::NoneValue) == Value::NoneValue);
            self.op_push(PickleValue::NoneValue)
        } else if op == op::NEWTRUE {
            self.op_push(PickleValue::Bool(true))
        } else if op == op::NEWFALSE {
            self.op_push(PickleValue::Bool(false))
        } else if op == op::BININT1 {
            self.op_int(data, op, sizes::BININT1_LEN)
        } else if op == op::BININT2 {
            self.op_int(data, op, sizes::BININT2_LEN)
        } else if op == op::BININT {
            self.op_int(data, op, sizes::BININT4_LEN)
        } else if op == op::BINFLOAT {
            self.op_binfloat(data, op)
        } else if op == op::LONG1 || op == op::SHORT_BINUNICODE || op == op::SHORT_BINBYTES {
            self.op_prefixed(data, op, 1)
        } else if op == op::BINUNICODE || op == op::BINBYTES {
            self.op_prefixed(data, op, 4)
        } else if op == op::EMPTY_LIST {
            let items: Vec<PickleValue<'a>> = Vec::new();
            assert(crate::value::models_of(items@) =~= Seq::<Value>::empty());
            self.op_push(PickleValue::List(items))
        } else if op == op::EMPTY_TUPLE {
            let items: Vec<PickleValue<'a>> = Vec::new();
            assert(crate::value::models_of(items@) =~= Seq::<Value>::empty());
            self.op_push(PickleValue::Tuple(items))
        } else if op == op::EMPTY_DICT {
            let entries: Vec<(PickleValue<'a>, PickleValue<'a>)> = Vec::new();
            assert(crate::value::pair_models_of(entries@) =~= Seq::<(Value, Value)>::empty());
            self.op_push(PickleValue::Dict(entries))
        } else if op == op::EMPTY_SET {
            let items: Vec<PickleValue<'a>> = Vec::new();
            assert(crate::value::models_of(items@) =~= Seq::<Value>::empty());
            self.op_push(PickleValue::MutableSet(items))
        } else if op == op::TUPLE1 {
            self.op_small_tuple(op, 1)
        } else if op == op::TUPLE2 {
            self.op_small_tuple(op, 2)
        } else if op == op::TUPLE3 {
            self.op_small_tuple(op, 3)
        } else if op == op::MARK {
            self.op_mark()
        } else if op == op::MEMOIZE {
            self.op_memoize()
        } else if op == op::BINGET {
            self.op_get(data, op, sizes::BINGET_LEN)
        } else if op == op::LONG_BINGET {
            self.op_get(data, op, sizes::LONG_BINGET_LEN)
        } else if op == op::SETITEM {
            self.op_setitem(op)
        } else if op == op::SETITEMS || op == op::APPENDS || op == op::ADDITEMS || op == op::FROZENSET
            || op == op::TUPLE || op == op::POP_MARK {
            self.op_to_mark(op)
        } else if op == op::GLOBAL {
            self.op_global(data)
        } else if op == op::STACK_GLOBAL {
            self.op_stack_global(op)
        } else if op == op::REDUCE || op == op::NEWOBJ {
            self.op_call(op, 2)
        } else if op == op::NEWOBJ_EX {
            self.op_call(op, 3)
        } else if op == op::BUILD {
            self.op_build(op)
        } else if op == op::BINPUT {
            self.op_put(data, op, sizes::BINPUT_LEN)
        } else if op == op::LONG_BINPUT {
            self.op_put(data, op, sizes::LONG_BINPUT_LEN)
        } else if op == op::APPEND {
            self.op_append(op)
        } else if op == op::DUP {
            self.op_dup()
        } else if op == op::POP {
            self.op_pop()
        } else if op == op::BINPERSID {
            self.op_binpersid(op)
        } else {
            StepResult::Done(Err(Error::UnsupportedOpcode(op)))
        }
    }
}

/// Runs the pickle machine over `data`, as `unpickle` does, but returns
/// `None` where `unpickle` would panic: where an opcode pops a mark that
/// lies above the top of the stack.
pub fn unpickle_checked<'a>(data: &'a [u8]) -> (r: Option<Result<PickleData<'a>, Error>>)
    ensures
        checked_model(r) == machine::unpickle_spec(data@),
{
    let mut st = State::new();
    loop
        invariant
            st.pos <= data@.len(),
            machine::run(data@, st.model()) == machine::unpickle_spec(data@),
        decreases data@.len() - st.pos,
    {
        if st.pos >= data.len() {
            return Some(Err(Error::Eof));
        }
        let ghost before = st.model();
        proof {
            machine::lemma_step_advances(data@, before);
        }
        match st.step(data) {
            StepResult::Continue => {},
            StepResult::Done(r) => {
                return Some(r);
            },
            StepResult::Crash => {
                return None;
            },
        }
    }
}

/// Reads a pickle stream: runs the pickle machine over `data` from its
/// first byte to `STOP`, and returns the protocol, the last frame header
/// and the value on top of the stack at `STOP`, or the first error met.
pub fn unpickle<'a>(data: &'a [u8]) -> (r: Result<PickleData<'a>, Error>)
    requires
        machine::unpickle_spec(data@) is Some,
    ensures
        machine::unpickle_spec(data@) == Some(result_model(r)),
{
    match unpickle_checked(data) {
        Some(r) => r,
        None => {
            assert(false);
            Err(Error::Eof)
        },
    }
}

} // verus!
