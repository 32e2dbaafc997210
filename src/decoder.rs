//! Decoding of multi-bulk command frames.
//!
//! A frame is `*<count>\r\n` followed by `count` arguments, each written as
//! `$<length>\r\n<payload>\r\n`, where `length` is the number of bytes the
//! payload takes in UTF-8. The decoder reads the declared lengths and takes
//! exactly that many bytes, so a payload may hold any character, CR and LF
//! included.
use vstd::prelude::*;
use vstd::string::*;
use vstd::utf8::{char_is_scalar, encode_scalar, encode_utf8};
use crate::redis_command::{texts, RedisCommand};

verus! {

/// Whether `c` is a decimal digit.
pub open spec fn is_digit(c: char) -> bool {
    '0' <= c && c <= '9'
}

/// The value of a decimal digit.
pub open spec fn digit_value(c: char) -> int {
    c as int - '0' as int
}

/// The end of the run of digits that starts at `i`.
pub open spec fn digits_end(s: Seq<char>, i: int) -> int
    decreases s.len() - i,
{
    if 0 <= i < s.len() && is_digit(s[i]) {
        digits_end(s, i + 1)
    } else {
        i
    }
}

/// The number that the digits `s[a..b]` write in decimal.
pub open spec fn digits_value(s: Seq<char>, a: int, b: int) -> int
    decreases b - a,
{
    if b <= a {
        0
    } else {
        digits_value(s, a, b - 1) * 10 + digit_value(s[b - 1])
    }
}

/// The outcome of reading one element of a frame at some position.
pub enum Scan {
    /// Read: two numbers whose meaning depends on the element, see below.
    Got(int, int),
    /// The input ends before the element does.
    Short,
    /// The element is malformed.
    Bad,
}

/// Reads the line `<marker><digits>\r\n` at `i`: `Got(value, next line)`.
/// A value larger than the bytes the whole input could take cannot be
/// satisfied by what is buffered, so such a line reads as `Short`.
pub open spec fn number_line(s: Seq<char>, i: int, marker: char) -> Scan {
    if i >= s.len() {
        Scan::Short
    } else if s[i] != marker {
        Scan::Bad
    } else {
        let e = digits_end(s, i + 1);
        if e >= s.len() {
            Scan::Short
        } else if e == i + 1 {
            Scan::Bad
        } else if s[e] != '\r' {
            Scan::Bad
        } else if e + 1 >= s.len() {
            Scan::Short
        } else if s[e + 1] != '\n' {
            Scan::Bad
        } else if digits_value(s, i + 1, e) > 4 * s.len() {
            Scan::Short
        } else {
            Scan::Got(digits_value(s, i + 1, e), e + 2)
        }
    }
}

/// The number of bytes that `c` takes in UTF-8.
pub open spec fn char_bytes(c: char) -> int {
    encode_scalar(c as u32).len() as int
}

/// A character takes one to four bytes.
pub proof fn lemma_char_bytes(c: char)
    ensures
        1 <= char_bytes(c) <= 4,
{
}

/// Takes characters from `j` on until they make up `n` bytes: `Got(end, end)`.
/// `Short` when the input ends first, `Bad` when a character would cross
/// the `n`-th byte.
pub open spec fn byte_span(s: Seq<char>, j: int, n: int) -> Scan
    decreases n,
{
    if n <= 0 {
        Scan::Got(j, j)
    } else if j < 0 || j >= s.len() {
        Scan::Short
    } else if char_bytes(s[j]) > n {
        Scan::Bad
    } else {
        proof {
            lemma_char_bytes(s[j]);
        }
        byte_span(s, j + 1, n - char_bytes(s[j]))
    }
}

/// Reads the argument `$<n>\r\n<payload>\r\n` at `i`, the payload being
/// `n` bytes: `Got(payload start, next)`, the payload being `s[start .. next - 2]`.
pub open spec fn arg_at(s: Seq<char>, i: int) -> Scan {
    match number_line(s, i, '$') {
        Scan::Got(n, j) => match byte_span(s, j, n) {
            Scan::Got(q, _) => {
                if q + 2 > s.len() {
                    Scan::Short
                } else if s[q] != '\r' || s[q + 1] != '\n' {
                    Scan::Bad
                } else {
                    Scan::Got(j, q + 2)
                }
            },
            Scan::Short => Scan::Short,
            Scan::Bad => Scan::Bad,
        },
        Scan::Short => Scan::Short,
        Scan::Bad => Scan::Bad,
    }
}

pub proof fn lemma_byte_span_bounds(s: Seq<char>, j: int, n: int)
    requires
        0 <= j <= s.len(),
    ensures
        byte_span(s, j, n) matches Scan::Got(q, _) ==> j <= q <= s.len(),
    decreases n,
{
    if n > 0 && j < s.len() && char_bytes(s[j]) <= n {
        lemma_char_bytes(s[j]);
        lemma_byte_span_bounds(s, j + 1, n - char_bytes(s[j]));
    }
}

/// The outcome of reading a run of arguments, or a whole frame.
pub enum Frame {
    /// The arguments' payloads, and the position after the last one.
    Done(Seq<Seq<char>>, int),
    /// The input ends before the frame does.
    Short,
    /// The frame is malformed.
    Bad,
}

/// Puts `pre` in front of the arguments of a finished read.
pub open spec fn prepend(pre: Seq<Seq<char>>, f: Frame) -> Frame {
    match f {
        Frame::Done(rest, m) => Frame::Done(pre + rest, m),
        Frame::Short => Frame::Short,
        Frame::Bad => Frame::Bad,
    }
}

/// Reads `k` arguments starting at `i`.
pub open spec fn args_at(s: Seq<char>, i: int, k: nat) -> Frame
    decreases k,
{
    if k == 0 {
        Frame::Done(seq![], i)
    } else {
        match arg_at(s, i) {
            Scan::Got(a, b) => prepend(seq![s.subrange(a, b - 2)], args_at(s, b, (k - 1) as nat)),
            Scan::Short => Frame::Short,
            Scan::Bad => Frame::Bad,
        }
    }
}

/// Reads the frame that starts at `i`.
pub open spec fn frame_at(s: Seq<char>, i: int) -> Frame {
    match number_line(s, i, '*') {
        Scan::Got(n, j) => args_at(s, j, n as nat),
        Scan::Short => Frame::Short,
        Scan::Bad => Frame::Bad,
    }
}

/// The first position at or after `i` that holds a frame marker, or the end.
pub open spec fn next_marker(s: Seq<char>, i: int) -> int
    decreases s.len() - i,
{
    if i >= s.len() {
        s.len() as int
    } else if i >= 0 && s[i] == '*' {
        i
    } else {
        next_marker(s, i + 1)
    }
}

pub proof fn lemma_next_marker_bounds(s: Seq<char>, i: int)
    requires
        0 <= i <= s.len(),
    ensures
        i <= next_marker(s, i) <= s.len(),
    decreases s.len() - i,
{
    if i < s.len() && s[i] != '*' {
        lemma_next_marker_bounds(s, i + 1);
    }
}

pub proof fn lemma_digits_end_bounds(s: Seq<char>, i: int)
    requires
        0 <= i <= s.len(),
    ensures
        i <= digits_end(s, i) <= s.len(),
    decreases s.len() - i,
{
    if i < s.len() && is_digit(s[i]) {
        lemma_digits_end_bounds(s, i + 1);
    }
}

pub proof fn lemma_number_line_advances(s: Seq<char>, i: int, marker: char)
    requires
        0 <= i,
    ensures
        number_line(s, i, marker) matches Scan::Got(n, j) ==> 0 <= n && i < j <= s.len(),
{
    if i < s.len() && s[i] == marker {
        lemma_digits_end_bounds(s, i + 1);
        let e = digits_end(s, i + 1);
        if number_line(s, i, marker) is Got {
            lemma_digits_value_nonneg(s, i + 1, e);
        }
    }
}

pub proof fn lemma_all_digits(s: Seq<char>, i: int)
    requires
        0 <= i <= s.len(),
    ensures
        forall|j: int| i <= j < digits_end(s, i) ==> is_digit(#[trigger] s[j]),
    decreases s.len() - i,
{
    if i < s.len() && is_digit(s[i]) {
        lemma_all_digits(s, i + 1);
    }
}

pub proof fn lemma_digits_value_nonneg(s: Seq<char>, a: int, b: int)
    requires
        0 <= a <= b <= s.len(),
        digits_end(s, a) >= b,
    ensures
        digits_value(s, a, b) >= 0,
    decreases b - a,
{
    lemma_all_digits(s, a);
    if b > a {
        lemma_digits_value_nonneg(s, a, b - 1);
    }
}

pub proof fn lemma_arg_advances(s: Seq<char>, i: int)
    requires
        0 <= i,
    ensures
        arg_at(s, i) matches Scan::Got(a, b) ==> i < a && a + 2 <= b <= s.len(),
{
    lemma_number_line_advances(s, i, '$');
    if let Scan::Got(n, j) = number_line(s, i, '$') {
        lemma_byte_span_bounds(s, j, n);
    }
}

pub proof fn lemma_args_advance(s: Seq<char>, i: int, k: nat)
    requires
        0 <= i <= s.len(),
    ensures
        args_at(s, i, k) matches Frame::Done(args, m) ==> i <= m <= s.len() && args.len() == k,
    decreases k,
{
    if k > 0 {
        lemma_arg_advances(s, i);
        if let Scan::Got(a, b) = arg_at(s, i) {
            lemma_args_advance(s, b, (k - 1) as nat);
        }
    }
}

/// A finished frame ends after it starts, within the input.
pub proof fn lemma_frame_advances(s: Seq<char>, i: int)
    requires
        0 <= i <= s.len(),
    ensures
        frame_at(s, i) matches Frame::Done(args, m) ==> i < m <= s.len(),
{
    lemma_number_line_advances(s, i, '*');
    if let Scan::Got(n, j) = number_line(s, i, '*') {
        lemma_args_advance(s, j, n as nat);
    }
}

/// Decodes the frames from `i` on: the argument lists of the finished,
/// non-empty frames in order, and the position where an unfinished frame
/// starts (the end of the input when there is none). A malformed frame is
/// dropped and decoding resumes at the next frame marker.
pub open spec fn decode_from(s: Seq<char>, i: int) -> (Seq<Seq<Seq<char>>>, int)
    decreases s.len() - i,
{
    if i < 0 || i >= s.len() {
        (seq![], i)
    } else {
        match frame_at(s, i) {
            Frame::Done(args, m) => {
                proof {
                    lemma_frame_advances(s, i);
                }
                let (cs, r) = decode_from(s, m);
                if args.len() == 0 {
                    (cs, r)
                } else {
                    (seq![args] + cs, r)
                }
            },
            Frame::Short => (seq![], i),
            Frame::Bad => {
                proof {
                    lemma_next_marker_bounds(s, i + 1);
                }
                decode_from(s, next_marker(s, i + 1))
            },
        }
    }
}

} // verus!

verus! {

/// The outcome of reading a numbered line or an argument.
pub enum Step {
    /// Read: as `Scan::Got`.
    Got(usize, usize),
    /// The input ends before the element does.
    Short,
    /// The element is malformed.
    Bad,
}

/// The outcome of reading a numbered line.
pub enum Line {
    /// The value, and the position of the next line.
    Got(u128, usize),
    /// The input ends before the line does.
    Short,
    /// The line is malformed.
    Bad,
}

/// The outcome of reading a frame.
pub enum FrameStep {
    /// The frame's arguments, and the position after it.
    Done(Vec<String>, usize),
    /// The input ends before the frame does.
    Short,
    /// The frame is malformed.
    Bad,
}

/// `r` reports the same outcome as `sc`.
pub open spec fn step_is(r: Step, sc: Scan) -> bool {
    match r {
        Step::Got(a, b) => sc == Scan::Got(a as int, b as int),
        Step::Short => sc is Short,
        Step::Bad => sc is Bad,
    }
}

/// `r` reports the same outcome as `sc`.
pub open spec fn line_is(r: Line, sc: Scan) -> bool {
    match r {
        Line::Got(a, b) => sc == Scan::Got(a as int, b as int),
        Line::Short => sc is Short,
        Line::Bad => sc is Bad,
    }
}

/// `r` reports the same outcome as `f`.
pub open spec fn frame_step_is(r: FrameStep, f: Frame) -> bool {
    match r {
        FrameStep::Done(args, m) => f == Frame::Done(texts(args@), m as int),
        FrameStep::Short => f is Short,
        FrameStep::Bad => f is Bad,
    }
}

/// The characters of `s`.
pub fn chars_of(s: &str) -> (r: Vec<char>)
    ensures
        r@ == s@,
{
    let mut v: Vec<char> = Vec::new();
    for c in it: s.chars()
        invariant
            v@ == it.seq().take(it.index() as int),
    {
        v.push(c);
    }
    v
}

/// Reads the line `<marker><digits>\r\n` at `i`.
fn read_number(v: &Vec<char>, i: usize, marker: char) -> (r: Line)
    ensures
        line_is(r, number_line(v@, i as int, marker)),
{
    let ghost s = v@;
    if i >= v.len() {
        return Line::Short;
    }
    if v[i] != marker {
        return Line::Bad;
    }
    let start = i + 1;
    let mut e: usize = start;
    let mut val: u128 = 0;
    let cap = 4 * (v.len() as u128);
    proof {
        lemma_all_digits(s, start as int);
        lemma_digits_end_bounds(s, start as int);
    }
    while e < v.len() && '0' <= v[e] && v[e] <= '9'
        invariant
            start <= e <= v.len(),
            s == v@,
            cap == 4 * v.len(),
            digits_end(s, start as int) == digits_end(s, e as int),
            forall|j: int| start <= j < e ==> is_digit(#[trigger] s[j]),
            digits_value(s, start as int, e as int) >= 0,
            digits_value(s, start as int, e as int) <= cap ==> val == digits_value(
                s,
                start as int,
                e as int,
            ),
            digits_value(s, start as int, e as int) > cap ==> val > cap,
            val <= cap * 10 + 9,
        decreases v.len() - e,
    {
        let d = (v[e] as u32 - '0' as u32) as u128;
        if val <= cap {
            val = val * 10 + d;
        }
        e = e + 1;
    }
    if e >= v.len() {
        return Line::Short;
    }
    if e == start || v[e] != '\r' {
        return Line::Bad;
    }
    if e + 1 >= v.len() {
        return Line::Short;
    }
    if v[e + 1] != '\n' {
        return Line::Bad;
    }
    if val > cap {
        return Line::Short;
    }
    Line::Got(val, e + 2)
}

/// The number of bytes that `c` takes in UTF-8.
fn utf8_width(c: char) -> (r: u128)
    ensures
        r == char_bytes(c),
{
    let x = c as u32;
    proof {
        char_is_scalar(c);
    }
    if x <= 0x7F {
        1
    } else if x <= 0x7FF {
        2
    } else if x <= 0xFFFF {
        3
    } else {
        4
    }
}

/// Takes characters from `j` on until they make up `n` bytes.
fn scan_bytes(v: &Vec<char>, j: usize, n: u128) -> (r: Step)
    requires
        j <= v.len(),
    ensures
        step_is(r, byte_span(v@, j as int, n as int)),
{
    let mut k: usize = j;
    let mut left: u128 = n;
    while left > 0
        invariant
            j <= k <= v.len(),
            left <= n,
            byte_span(v@, j as int, n as int) == byte_span(v@, k as int, left as int),
        decreases left,
    {
        if k >= v.len() {
            return Step::Short;
        }
        let b = utf8_width(v[k]);
        if b > left {
            return Step::Bad;
        }
        proof {
            lemma_char_bytes(v@[k as int]);
        }
        left = left - b;
        k = k + 1;
    }
    Step::Got(k, k)
}

/// Reads the argument `$<n>\r\n<payload>\r\n` at `i`.
fn read_arg(v: &Vec<char>, i: usize) -> (r: Step)
    ensures
        step_is(r, arg_at(v@, i as int)),
{
    proof {
        lemma_number_line_advances(v@, i as int, '$');
    }
    match read_number(v, i, '$') {
        Line::Got(n, j) => {
            proof {
                lemma_byte_span_bounds(v@, j as int, n as int);
            }
            match scan_bytes(v, j, n) {
                Step::Got(q, _) => {
                    if v.len() - q < 2 {
                        Step::Short
                    } else if v[q] != '\r' || v[q + 1] != '\n' {
                        Step::Bad
                    } else {
                        Step::Got(j, q + 2)
                    }
                },
                Step::Short => Step::Short,
                Step::Bad => Step::Bad,
            }
        },
        Line::Short => Step::Short,
        Line::Bad => Step::Bad,
    }
}

/// Reads the frame at `i`; `text` is the input whose characters are `v`.
pub fn read_frame(v: &Vec<char>, text: &str, i: usize) -> (r: FrameStep)
    requires
        v@ == text@,
    ensures
        frame_step_is(r, frame_at(v@, i as int)),
{
    let ghost s = v@;
    proof {
        lemma_number_line_advances(s, i as int, '*');
    }
    let (n, j) = match read_number(v, i, '*') {
        Line::Got(n, j) => (n, j),
        Line::Short => return FrameStep::Short,
        Line::Bad => return FrameStep::Bad,
    };
    let mut args: Vec<String> = Vec::new();
    let mut p: usize = j;
    let mut t: u128 = 0;
    while t < n
        invariant
            t <= n,
            j <= p <= v.len(),
            v@ == s,
            s == text@,
            number_line(s, i as int, '*') == Scan::Got(n as int, j as int),
            args_at(s, j as int, n as nat) == prepend(texts(args@), args_at(s, p as int, (n - t) as nat)),
        decreases n - t,
    {
        proof {
            lemma_arg_advances(s, p as int);
        }
        match read_arg(v, p) {
            Step::Got(a, b) => {
                let piece = String::from_str(text.substring_char(a, b - 2));
                let ghost before = args@;
                args.push(piece);
                proof {
                    let rest = args_at(s, b as int, (n - t - 1) as nat);
                    assert(texts(args@) =~= texts(before) + seq![s.subrange(a as int, b - 2)]);
                    match rest {
                        Frame::Done(r2, m) => {
                            assert(texts(before) + (seq![s.subrange(a as int, b - 2)] + r2)
                                =~= texts(args@) + r2);
                        },
                        _ => {},
                    }
                }
                p = b;
                t = t + 1;
            },
            Step::Short => return FrameStep::Short,
            Step::Bad => return FrameStep::Bad,
        }
    }
    assert(texts(args@) + seq![] =~= texts(args@));
    FrameStep::Done(args, p)
}

/// The first position at or after `i` that holds a frame marker, or the end.
fn find_marker(v: &Vec<char>, i: usize) -> (r: usize)
    requires
        i <= v.len(),
    ensures
        r == next_marker(v@, i as int),
{
    let mut k: usize = i;
    while k < v.len() && v[k] != '*'
        invariant
            i <= k <= v.len(),
            next_marker(v@, i as int) == next_marker(v@, k as int),
        decreases v.len() - k,
    {
        k = k + 1;
    }
    k
}

/// The argument lists of a sequence of commands.
pub open spec fn commands_view(v: Seq<RedisCommand>) -> Seq<Seq<Seq<char>>> {
    v.map_values(|c: RedisCommand| c@)
}

/// Decodes the frames of `text`: the finished commands in order, and the
/// position (in characters) where the unfinished remainder starts.
pub fn decode(text: &str) -> (r: (Vec<RedisCommand>, usize))
    ensures
        commands_view(r.0@) == decode_from(text@, 0).0,
        r.1 == decode_from(text@, 0).1,
{
    let v = chars_of(text);
    let ghost s = v@;
    let mut out: Vec<RedisCommand> = Vec::new();
    let mut i: usize = 0;
    while i < v.len()
        invariant
            i <= v.len(),
            v@ == s,
            s == text@,
            decode_from(s, 0) == (commands_view(out@) + decode_from(s, i as int).0, decode_from(
                s,
                i as int,
            ).1),
        decreases v.len() - i,
    {
        proof {
            lemma_frame_advances(s, i as int);
        }
        match read_frame(&v, text, i) {
            FrameStep::Done(args, m) => {
                let ghost before = out@;
                let ghost tail = decode_from(s, m as int);
                if args.len() > 0 {
                    out.push(RedisCommand::from_args(args));
                    assert(commands_view(out@) + tail.0 =~= commands_view(before) + (seq![
                        commands_view(out@).last(),
                    ] + tail.0));
                }
                i = m;
            },
            FrameStep::Short => {
                assert(commands_view(out@) + seq![] =~= commands_view(out@));
                return (out, i);
            },
            FrameStep::Bad => {
                proof {
                    lemma_next_marker_bounds(s, i + 1);
                }
                i = find_marker(&v, i + 1);
            },
        }
    }
    assert(commands_view(out@) + seq![] =~= commands_view(out@));
    (out, i)
}

/// Turns a character stream into commands. Input may arrive in chunks cut
/// anywhere: a frame is kept until all of it has arrived.
pub struct Decoder {
    pending: String,
}

impl Decoder {
    /// A decoder with nothing pending.
    pub fn new() -> (r: Decoder)
        ensures
            r.pending() == Seq::<char>::empty(),
    {
        Decoder { pending: String::new() }
    }

    /// The input received but not yet decoded: the start of an unfinished frame.
    pub closed spec fn pending(&self) -> Seq<char> {
        self.pending@
    }

    /// The characters received but not yet decoded.
    pub fn pending_text(&self) -> (r: &str)
        ensures
            r@ == self.pending(),
    {
        self.pending.as_str()
    }

    /// Appends `chunk` to what is pending and decodes every frame that is
    /// now complete; the rest stays pending.
    pub fn feed(&mut self, chunk: &str) -> (r: Vec<RedisCommand>)
        ensures
            commands_view(r@) == decode_from(old(self).pending() + chunk@, 0).0,
            final(self).pending() == (old(self).pending() + chunk@).subrange(
                decode_from(old(self).pending() + chunk@, 0).1,
                (old(self).pending() + chunk@).len() as int,
            ),
    {
        let mut buf = self.pending.clone();
        buf.append(chunk);
        let (cmds, rest) = decode(buf.as_str());
        let n = buf.as_str().unicode_len();
        proof {
            lemma_decode_bounds(buf@, 0);
        }
        self.pending = String::from_str(buf.as_str().substring_char(rest, n));
        cmds
    }
}

/// Decoding from `i` stops at a position between `i` and the end.
pub proof fn lemma_decode_bounds(s: Seq<char>, i: int)
    requires
        0 <= i <= s.len(),
    ensures
        i <= decode_from(s, i).1 <= s.len(),
    decreases s.len() - i,
{
    if i < s.len() {
        lemma_frame_advances(s, i);
        match frame_at(s, i) {
            Frame::Done(args, m) => lemma_decode_bounds(s, m),
            Frame::Short => {},
            Frame::Bad => {
                lemma_next_marker_bounds(s, i + 1);
                lemma_decode_bounds(s, next_marker(s, i + 1));
            },
        }
    }
}

/// The digit character for `d` in `0 .. 10`.
pub open spec fn digit_char(d: int) -> char {
    seq!['0', '1', '2', '3', '4', '5', '6', '7', '8', '9'][d]
}

/// `n` written in decimal, without leading zeros.
pub open spec fn decimal(n: nat) -> Seq<char>
    decreases n,
{
    if n < 10 {
        seq![digit_char(n as int)]
    } else {
        decimal(n / 10) + seq![digit_char((n % 10) as int)]
    }
}

/// The line terminator.
pub open spec fn crlf() -> Seq<char> {
    seq!['\r', '\n']
}

/// One argument as it stands in a frame: its length in UTF-8 bytes, then
/// the argument itself.
pub open spec fn encode_arg(a: Seq<char>) -> Seq<char> {
    seq!['$'] + decimal(encode_utf8(a).len()) + crlf() + a + crlf()
}

/// A run of arguments as they stand in a frame.
pub open spec fn encode_args(args: Seq<Seq<char>>) -> Seq<char>
    decreases args.len(),
{
    if args.len() == 0 {
        seq![]
    } else {
        encode_arg(args[0]) + encode_args(args.subrange(1, args.len() as int))
    }
}

/// The frame of a command with arguments `args`.
pub open spec fn encode_command(args: Seq<Seq<char>>) -> Seq<char> {
    seq!['*'] + decimal(args.len()) + crlf() + encode_args(args)
}

/// The frames of several commands, one after another.
pub open spec fn encode_commands(cmds: Seq<Seq<Seq<char>>>) -> Seq<char>
    decreases cmds.len(),
{
    if cmds.len() == 0 {
        seq![]
    } else {
        encode_command(cmds[0]) + encode_commands(cmds.subrange(1, cmds.len() as int))
    }
}

proof fn lemma_digit_char(d: int)
    requires
        0 <= d < 10,
    ensures
        is_digit(digit_char(d)),
        digit_value(digit_char(d)) == d,
{
    let t = seq!['0', '1', '2', '3', '4', '5', '6', '7', '8', '9'];
    assert(t[0] == '0' && t[1] == '1' && t[2] == '2' && t[3] == '3' && t[4] == '4');
    assert(t[5] == '5' && t[6] == '6' && t[7] == '7' && t[8] == '8' && t[9] == '9');
}

proof fn lemma_decimal_digits(n: nat)
    ensures
        decimal(n).len() >= 1,
        forall|k: int| 0 <= k < decimal(n).len() ==> is_digit(#[trigger] decimal(n)[k]),
    decreases n,
{
    if n < 10 {
        lemma_digit_char(n as int);
    } else {
        lemma_decimal_digits(n / 10);
        lemma_digit_char((n % 10) as int);
        let d = decimal(n / 10);
        assert forall|k: int| 0 <= k < decimal(n).len() implies is_digit(#[trigger] decimal(n)[k]) by {
            if k < d.len() {
                assert(decimal(n)[k] == d[k]);
            }
        }
    }
}

proof fn lemma_digits_end_at(s: Seq<char>, a: int, b: int)
    requires
        0 <= a <= b < s.len(),
        forall|k: int| a <= k < b ==> is_digit(#[trigger] s[k]),
        !is_digit(s[b]),
    ensures
        digits_end(s, a) == b,
    decreases b - a,
{
    if a < b {
        lemma_digits_end_at(s, a + 1, b);
    }
}

proof fn lemma_decimal_value(s: Seq<char>, a: int, n: nat)
    requires
        0 <= a,
        a + decimal(n).len() <= s.len(),
        s.subrange(a, a + decimal(n).len()) == decimal(n),
    ensures
        digits_value(s, a, a + decimal(n).len()) == n,
    decreases n,
{
    let b = a + decimal(n).len();
    if n < 10 {
        lemma_digit_char(n as int);
        assert(s[a] == s.subrange(a, b)[0]);
        assert(digits_value(s, a, a) == 0);
    } else {
        let d = decimal(n / 10);
        lemma_decimal_digits(n / 10);
        assert(s.subrange(a, a + d.len()) =~= s.subrange(a, b).subrange(0, d.len() as int));
        assert(decimal(n).subrange(0, d.len() as int) =~= d);
        lemma_decimal_value(s, a, n / 10);
        lemma_digit_char((n % 10) as int);
        assert(decimal(n).len() == d.len() + 1);
        assert(decimal(n)[d.len() as int] == digit_char((n % 10) as int));
        assert(s[b - 1] == s.subrange(a, b)[b - 1 - a]);
        assert(digits_value(s, a, b) == digits_value(s, a, b - 1) * 10 + digit_value(s[b - 1]));
    }
}

proof fn lemma_number_line_of(s: Seq<char>, i: int, marker: char, n: nat)
    requires
        0 <= i,
        i + 1 + decimal(n).len() + 2 <= s.len(),
        s[i] == marker,
        s.subrange(i + 1, i + 1 + decimal(n).len()) == decimal(n),
        s[i + 1 + decimal(n).len()] == '\r',
        s[i + 2 + decimal(n).len()] == '\n',
        n <= 4 * s.len(),
    ensures
        number_line(s, i, marker) == Scan::Got(n as int, i + 3 + decimal(n).len()),
{
    let e = i + 1 + decimal(n).len();
    lemma_decimal_digits(n);
    assert forall|k: int| i + 1 <= k < e implies is_digit(#[trigger] s[k]) by {
        assert(s[k] == s.subrange(i + 1, e)[k - i - 1]);
    }
    lemma_digits_end_at(s, i + 1, e);
    lemma_decimal_value(s, i + 1, n);
}

proof fn lemma_utf8_len(a: Seq<char>)
    ensures
        encode_utf8(a).len() <= 4 * a.len(),
        a.len() > 0 ==> encode_utf8(a).len() == char_bytes(a[0]) + encode_utf8(a.drop_first()).len(),
    decreases a.len(),
{
    if a.len() > 0 {
        lemma_char_bytes(a[0]);
        lemma_utf8_len(a.drop_first());
    }
}

proof fn lemma_span_of(s: Seq<char>, j: int, a: Seq<char>)
    requires
        0 <= j,
        j + a.len() <= s.len(),
        s.subrange(j, j + a.len()) == a,
    ensures
        byte_span(s, j, encode_utf8(a).len() as int) == Scan::Got(j + a.len(), j + a.len()),
    decreases a.len(),
{
    if a.len() > 0 {
        lemma_utf8_len(a);
        lemma_char_bytes(a[0]);
        let rest = a.drop_first();
        assert(s[j] == s.subrange(j, j + a.len())[0]);
        assert(s.subrange(j + 1, j + 1 + rest.len()) =~= rest) by {
            assert forall|k: int| 0 <= k < rest.len() implies s.subrange(j + 1, j + 1 + rest.len())[k]
                == rest[k] by {
                assert(s[j + 1 + k] == s.subrange(j, j + a.len())[k + 1]);
            }
        }
        lemma_span_of(s, j + 1, rest);
    }
}

proof fn lemma_arg_of(s: Seq<char>, i: int, a: Seq<char>)
    requires
        0 <= i,
        i + encode_arg(a).len() <= s.len(),
        s.subrange(i, i + encode_arg(a).len()) == encode_arg(a),
    ensures
        arg_at(s, i) == Scan::Got(
            i + 3 + decimal(encode_utf8(a).len()).len(),
            i + encode_arg(a).len(),
        ),
        s.subrange(i + 3 + decimal(encode_utf8(a).len()).len(), i + encode_arg(a).len() - 2) == a,
{
    let n = encode_utf8(a).len();
    let d = decimal(n);
    let t = encode_arg(a);
    let e = i + 1 + d.len();
    let j = e + 2;
    assert(t.len() == d.len() + a.len() + 5);
    assert(s[i] == t[0]);
    assert(s.subrange(i + 1, e) =~= d) by {
        assert forall|k: int| 0 <= k < d.len() implies s.subrange(i + 1, e)[k] == d[k] by {
            assert(s[i + 1 + k] == t[1 + k]);
        }
    }
    assert(s[e] == t[1 + d.len() as int]);
    assert(s[e + 1] == t[2 + d.len() as int]);
    assert(s[j + a.len()] == t[3 + d.len() + a.len() as int]);
    assert(s[j + a.len() + 1] == t[4 + d.len() + a.len() as int]);
    assert(s.subrange(j, j + a.len()) =~= a) by {
        assert forall|k: int| 0 <= k < a.len() implies s.subrange(j, j + a.len())[k] == a[k] by {
            assert(s[j + k] == t[3 + d.len() + k]);
        }
    }
    lemma_utf8_len(a);
    lemma_number_line_of(s, i, '$', n);
    lemma_span_of(s, j, a);
}

proof fn lemma_encode_args_len(args: Seq<Seq<char>>)
    ensures
        encode_args(args).len() >= args.len(),
    decreases args.len(),
{
    if args.len() > 0 {
        lemma_encode_args_len(args.subrange(1, args.len() as int));
    }
}

proof fn lemma_args_of(s: Seq<char>, i: int, args: Seq<Seq<char>>)
    requires
        0 <= i,
        i + encode_args(args).len() <= s.len(),
        s.subrange(i, i + encode_args(args).len()) == encode_args(args),
    ensures
        args_at(s, i, args.len()) == Frame::Done(args, i + encode_args(args).len()),
    decreases args.len(),
{
    if args.len() > 0 {
        let t = encode_args(args);
        let head = encode_arg(args[0]);
        let tail = args.subrange(1, args.len() as int);
        let m = i + head.len();
        assert(t == head + encode_args(tail));
        assert(t.subrange(0, head.len() as int) =~= head);
        assert(t.subrange(head.len() as int, t.len() as int) =~= encode_args(tail));
        assert(s.subrange(i, m) =~= t.subrange(0, head.len() as int));
        assert(s.subrange(m, i + t.len()) =~= t.subrange(head.len() as int, t.len() as int));
        lemma_arg_of(s, i, args[0]);
        lemma_args_of(s, m, tail);
        assert(tail.len() == (args.len() - 1) as nat);
        let a = i + 3 + decimal(encode_utf8(args[0]).len()).len();
        assert(s.subrange(a, m - 2) == args[0]);
        assert(args_at(s, i, args.len()) == prepend(seq![args[0]], args_at(s, m, tail.len())));
        assert(seq![args[0]] + tail =~= args);
    } else {
        assert(args =~= seq![]);
    }
}

proof fn lemma_frame_of(s: Seq<char>, i: int, args: Seq<Seq<char>>)
    requires
        0 <= i,
        i + encode_command(args).len() <= s.len(),
        s.subrange(i, i + encode_command(args).len()) == encode_command(args),
    ensures
        frame_at(s, i) == Frame::Done(args, i + encode_command(args).len()),
{
    let d = decimal(args.len());
    let t = encode_command(args);
    let e = i + 1 + d.len();
    let body = encode_args(args);
    assert(s[i] == t[0]);
    assert(s.subrange(i + 1, e) =~= d) by {
        assert forall|k: int| 0 <= k < d.len() implies s.subrange(i + 1, e)[k] == d[k] by {
            assert(s[i + 1 + k] == t[1 + k]);
        }
    }
    assert(s[e] == t[1 + d.len() as int]);
    assert(s[e + 1] == t[2 + d.len() as int]);
    lemma_encode_args_len(args);
    lemma_number_line_of(s, i, '*', args.len());
    assert(s.subrange(e + 2, e + 2 + body.len()) =~= body) by {
        assert forall|k: int| 0 <= k < body.len() implies s.subrange(e + 2, e + 2 + body.len())[k]
            == body[k] by {
            assert(s[e + 2 + k] == t[3 + d.len() + k]);
        }
    }
    lemma_args_of(s, e + 2, args);
}

proof fn lemma_decode_encoded(s: Seq<char>, i: int, cmds: Seq<Seq<Seq<char>>>)
    requires
        0 <= i,
        s.len() == i + encode_commands(cmds).len(),
        s.subrange(i, s.len() as int) == encode_commands(cmds),
        forall|k: int| 0 <= k < cmds.len() ==> (#[trigger] cmds[k]).len() > 0,
    ensures
        decode_from(s, i) == (cmds, s.len() as int),
    decreases cmds.len(),
{
    if cmds.len() > 0 {
        let t = encode_commands(cmds);
        let head = encode_command(cmds[0]);
        let tail = cmds.subrange(1, cmds.len() as int);
        let m = i + head.len();
        assert(head.len() > 0);
        assert(t == head + encode_commands(tail));
        assert(t.subrange(0, head.len() as int) =~= head);
        assert(t.subrange(head.len() as int, t.len() as int) =~= encode_commands(tail));
        assert(s.subrange(i, m) =~= t.subrange(0, head.len() as int));
        assert(s.subrange(m, s.len() as int) =~= t.subrange(head.len() as int, t.len() as int));
        lemma_frame_of(s, i, cmds[0]);
        assert forall|k: int| 0 <= k < tail.len() implies (#[trigger] tail[k]).len() > 0 by {
            assert(tail[k] == cmds[k + 1]);
        }
        lemma_decode_encoded(s, m, tail);
        assert(seq![cmds[0]] + tail =~= cmds);
    } else {
        assert(cmds =~= seq![]);
    }
}

/// Decoding the frames of commands that each have at least one argument
/// gives back exactly those commands, in order, with nothing left over.
pub proof fn lemma_decode_round_trip(cmds: Seq<Seq<Seq<char>>>)
    requires
        forall|k: int| 0 <= k < cmds.len() ==> (#[trigger] cmds[k]).len() > 0,
    ensures
        decode_from(encode_commands(cmds), 0) == (cmds, encode_commands(cmds).len() as int),
{
    let s = encode_commands(cmds);
    assert(s.subrange(0, s.len() as int) =~= s);
    lemma_decode_encoded(s, 0, cmds);
}

/// The digit `d` as text.
fn digit_text(d: usize) -> (r: String)
    requires
        d < 10,
    ensures
        r@ == seq![digit_char(d as int)],
{
    let ghost t = seq!['0', '1', '2', '3', '4', '5', '6', '7', '8', '9'];
    assert(t[0] == '0' && t[1] == '1' && t[2] == '2' && t[3] == '3' && t[4] == '4');
    assert(t[5] == '5' && t[6] == '6' && t[7] == '7' && t[8] == '8' && t[9] == '9');
    let r = {
    if d == 0 {
        proof {
            reveal_strlit("0");
        }
        String::from_str("0")
    } else if d == 1 {
        proof {
            reveal_strlit("1");
        }
        String::from_str("1")
    } else if d == 2 {
        proof {
            reveal_strlit("2");
        }
        String::from_str("2")
    } else if d == 3 {
        proof {
            reveal_strlit("3");
        }
        String::from_str("3")
    } else if d == 4 {
        proof {
            reveal_strlit("4");
        }
        String::from_str("4")
    } else if d == 5 {
        proof {
            reveal_strlit("5");
        }
        String::from_str("5")
    } else if d == 6 {
        proof {
            reveal_strlit("6");
        }
        String::from_str("6")
    } else if d == 7 {
        proof {
            reveal_strlit("7");
        }
        String::from_str("7")
    } else if d == 8 {
        proof {
            reveal_strlit("8");
        }
        String::from_str("8")
    } else {
        proof {
            reveal_strlit("9");
        }
        String::from_str("9")
    }
    };
    assert(r@ =~= seq![digit_char(d as int)]);
    r
}

/// `n` written in decimal.
pub fn decimal_text(n: usize) -> (r: String)
    ensures
        r@ == decimal(n as nat),
    decreases n,
{
    if n < 10 {
        digit_text(n)
    } else {
        let high = decimal_text(n / 10);
        let low = digit_text(n % 10);
        high.concat(low.as_str())
    }
}

} // verus!
