//! One decoded command: its verb and positional arguments.
use vstd::prelude::*;
use vstd::string::*;
use crate::decoder::{frame_at, read_frame, chars_of, Frame, FrameStep};

verus! {

/// What `str::to_lowercase` makes of a string.
pub uninterp spec fn lower_of(s: Seq<char>) -> Seq<char>;

/// Relies on `str::to_lowercase`: the lower-case mapping of the characters,
/// which depends on the characters alone.
#[verifier::external_body]
fn lowercase(s: &str) -> (r: String)
    ensures
        r@ == lower_of(s@),
{
    s.to_lowercase()
}

/// A command: `args[0]` is the verb as sent, the rest are its parameters.
#[derive(Debug)]
pub struct RedisCommand {
    args: Vec<String>,
}

/// The texts of a sequence of strings.
pub open spec fn texts(v: Seq<String>) -> Seq<Seq<char>> {
    v.map_values(|x: String| x@)
}

/// The arguments that the fragment `s` holds: those of the frame at its
/// start, or none when it does not start with a complete, well-formed frame.
pub open spec fn fragment_args(s: Seq<char>) -> Seq<Seq<char>> {
    match frame_at(s, 0) {
        Frame::Done(args, _) => args,
        _ => seq![],
    }
}

impl View for RedisCommand {
    type V = Seq<Seq<char>>;

    closed spec fn view(&self) -> Seq<Seq<char>> {
        texts(self.args@)
    }
}

impl RedisCommand {
    /// Builds a command from its fragment of input, a single frame.
    pub fn new(cmd: String) -> (r: RedisCommand)
        ensures
            r@ == fragment_args(cmd@),
    {
        let v = chars_of(cmd.as_str());
        match read_frame(&v, cmd.as_str(), 0) {
            FrameStep::Done(args, _) => RedisCommand { args },
            _ => RedisCommand { args: Vec::new() },
        }
    }

    /// Builds a command from its arguments.
    pub fn from_args(args: Vec<String>) -> (r: RedisCommand)
        ensures
            r@ == texts(args@),
    {
        RedisCommand { args }
    }

    /// The arguments, the verb first.
    pub fn params(&self) -> (r: Vec<String>)
        ensures
            texts(r@) == self@,
    {
        let mut out: Vec<String> = Vec::new();
        let mut i: usize = 0;
        while i < self.args.len()
            invariant
                i <= self.args.len(),
                out@.len() == i,
                forall|k: int| 0 <= k < i ==> #[trigger] out@[k]@ == self.args@[k]@,
            decreases self.args.len() - i,
        {
            out.push(self.args[i].clone());
            i = i + 1;
        }
        assert(texts(out@) =~= texts(self.args@));
        out
    }

    /// The number of arguments, the verb included.
    pub fn len(&self) -> (r: usize)
        ensures
            r == self@.len(),
    {
        self.args.len()
    }

    /// The argument at `i`.
    pub fn arg(&self, i: usize) -> (r: &String)
        requires
            i < self@.len(),
        ensures
            r@ == self@[i as int],
    {
        &self.args[i]
    }

    /// The lower-cased verb: the key under which the command is dispatched.
    pub fn name(&self) -> (r: String)
        requires
            self@.len() > 0,
        ensures
            r@ == lower_of(self@[0]),
    {
        lowercase(self.args[0].as_str())
    }
}

} // verus!
