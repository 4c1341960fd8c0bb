//! The inference-backend supervisor: deterministic command-line
//! construction and the tracked-handle state machine.
//!
//! Spawning and killing the child process happen outside the library; the
//! supervisor decides, from its state, which handle to surrender for
//! teardown and which to track, so that at most one backend instance is
//! ever considered live.

use vstd::prelude::*;
use crate::chunker::views_of;

verus! {

/// The digit character of `d`.
pub open spec fn digit_char(d: int) -> char {
    if d == 0 {
        '0'
    } else if d == 1 {
        '1'
    } else if d == 2 {
        '2'
    } else if d == 3 {
        '3'
    } else if d == 4 {
        '4'
    } else if d == 5 {
        '5'
    } else if d == 6 {
        '6'
    } else if d == 7 {
        '7'
    } else if d == 8 {
        '8'
    } else {
        '9'
    }
}

/// The decimal digits of `n`, most significant first.
pub open spec fn decimal_chars(n: nat) -> Seq<char>
    decreases n,
{
    if n < 10 {
        seq![digit_char(n as int)]
    } else {
        decimal_chars(n / 10) + seq![digit_char((n % 10) as int)]
    }
}

fn digit_str(d: u32) -> (r: &'static str)
    requires
        d < 10,
    ensures
        r@ == seq![digit_char(d as int)],
{
    let r: &'static str = if d == 0 {
        "0"
    } else if d == 1 {
        "1"
    } else if d == 2 {
        "2"
    } else if d == 3 {
        "3"
    } else if d == 4 {
        "4"
    } else if d == 5 {
        "5"
    } else if d == 6 {
        "6"
    } else if d == 7 {
        "7"
    } else if d == 8 {
        "8"
    } else {
        "9"
    };
    proof {
        reveal_strlit("0");
        reveal_strlit("1");
        reveal_strlit("2");
        reveal_strlit("3");
        reveal_strlit("4");
        reveal_strlit("5");
        reveal_strlit("6");
        reveal_strlit("7");
        reveal_strlit("8");
        reveal_strlit("9");
        assert(r@ =~= seq![digit_char(d as int)]);
    }
    r
}

/// Formats `n` in decimal.
pub fn u32_to_decimal(n: u32) -> (r: String)
    ensures
        r@ == decimal_chars(n as nat),
    decreases n,
{
    if n < 10 {
        digit_str(n).to_owned()
    } else {
        let mut prefix = u32_to_decimal(n / 10);
        prefix.append(digit_str(n % 10));
        prefix
    }
}

/// Whether `c` has the Unicode white-space property, as the standard
/// library's `char::is_whitespace` decides it; the result depends on the
/// character alone.
pub uninterp spec fn char_is_whitespace(c: char) -> bool;

/// Relies on char::is_whitespace: true exactly of Unicode white space.
#[verifier::external_body]
fn is_whitespace_char(c: char) -> (r: bool)
    ensures
        r == char_is_whitespace(c),
{
    c.is_whitespace()
}

/// Every code point is white space; true of the empty string. A string is
/// blank exactly when trimming would leave it empty.
pub open spec fn blank(s: Seq<char>) -> bool {
    forall|i: int| 0 <= i < s.len() ==> char_is_whitespace(#[trigger] s[i])
}

/// Whether the string holds nothing but white space.
pub fn is_blank(s: &str) -> (r: bool)
    ensures
        r == blank(s@),
{
    let n = s.unicode_len();
    let mut i: usize = 0;
    while i < n
        invariant
            0 <= i <= n,
            n == s@.len(),
            forall|j: int| 0 <= j < i ==> char_is_whitespace(#[trigger] s@[j]),
        decreases n - i,
    {
        let c = s.get_char(i);
        if !is_whitespace_char(c) {
            return false;
        }
        i = i + 1;
    }
    true
}

/// The configuration one backend start receives.
pub struct ServerConfig {
    pub model_path: String,
    pub gpu_layers: u32,
    pub context_size: u32,
    pub threads: u32,
    pub flash_attn: bool,
    pub main_gpu: u32,
    pub tensor_split: Option<String>,
    pub embedding: bool,
}

/// The arguments every start passes: model path, the fixed port, context
/// size, threads, GPU layers and main GPU index.
pub open spec fn base_args(c: &ServerConfig) -> Seq<Seq<char>> {
    seq![
        "-m"@,
        c.model_path@,
        "--port"@,
        "8080"@,
        "-c"@,
        decimal_chars(c.context_size as nat),
        "-t"@,
        decimal_chars(c.threads as nat),
        "-ngl"@,
        decimal_chars(c.gpu_layers as nat),
        "-mg"@,
        decimal_chars(c.main_gpu as nat),
    ]
}

/// The arguments appended when embedding mode is requested.
pub open spec fn embedding_args() -> Seq<Seq<char>> {
    seq!["--embedding"@, "--pooling"@, "cls"@, "-ub"@, "8192"@]
}

/// The flash-attention flag, appended only when enabled.
pub open spec fn flash_args(c: &ServerConfig) -> Seq<Seq<char>> {
    if c.flash_attn {
        seq!["-fa"@]
    } else {
        Seq::empty()
    }
}

/// The tensor-split arguments, appended only when a split is given and is
/// not blank.
pub open spec fn tensor_split_args(c: &ServerConfig) -> Seq<Seq<char>> {
    match c.tensor_split {
        Option::Some(ts) => if blank(ts@) {
            Seq::empty()
        } else {
            seq!["-ts"@, ts@]
        },
        Option::None => Seq::empty(),
    }
}

/// The full backend command line for one configuration.
pub open spec fn server_args(c: &ServerConfig) -> Seq<Seq<char>> {
    base_args(c) + (if c.embedding {
        embedding_args()
    } else {
        Seq::empty()
    }) + flash_args(c) + tensor_split_args(c)
}

/// Builds the backend's command-line argument list for `config`,
/// deterministically: the base flags, then the embedding-mode flags if
/// requested, then the flash-attention flag if enabled, then the tensor
/// split if one is given and not blank.
pub fn build_server_args(config: &ServerConfig) -> (args: Vec<String>)
    ensures
        views_of(args@) == server_args(config),
{
    let mut args: Vec<String> = Vec::new();
    args.push("-m".to_owned());
    args.push(config.model_path.clone());
    args.push("--port".to_owned());
    args.push("8080".to_owned());
    args.push("-c".to_owned());
    args.push(u32_to_decimal(config.context_size));
    args.push("-t".to_owned());
    args.push(u32_to_decimal(config.threads));
    args.push("-ngl".to_owned());
    args.push(u32_to_decimal(config.gpu_layers));
    args.push("-mg".to_owned());
    args.push(u32_to_decimal(config.main_gpu));
    if config.embedding {
        args.push("--embedding".to_owned());
        args.push("--pooling".to_owned());
        args.push("cls".to_owned());
        args.push("-ub".to_owned());
        args.push("8192".to_owned());
    }
    if config.flash_attn {
        args.push("-fa".to_owned());
    }
    match &config.tensor_split {
        Option::Some(ts) => {
            if !is_blank(ts.as_str()) {
                args.push("-ts".to_owned());
                args.push(ts.clone());
            }
        },
        Option::None => {},
    }
    proof {
        assert(views_of(args@) =~= server_args(config));
    }
    args
}

/// The supervisor's state: the handle of the one tracked backend process,
/// if any. A handle is an opaque token its caller assigns to each process
/// it spawns.
pub struct Supervisor {
    pub handle: Option<u64>,
}

/// One start, given the handle of the process it spawned: the new handle
/// becomes tracked and the previously tracked one, if any, is surrendered
/// for teardown.
pub open spec fn start_spec(s: Supervisor, h: u64) -> (Supervisor, Option<u64>) {
    (Supervisor { handle: Option::Some(h) }, s.handle)
}

/// One stop: nothing is tracked afterwards and the previously tracked
/// handle, if any, is surrendered for teardown.
pub open spec fn stop_spec(s: Supervisor) -> (Supervisor, Option<u64>) {
    (Supervisor { handle: Option::None }, s.handle)
}

impl Supervisor {
    /// A supervisor tracking no process.
    pub fn new() -> (s: Self)
        ensures
            s.handle is None,
    {
        Supervisor { handle: Option::None }
    }

    /// The handle currently tracked, if any.
    pub fn current(&self) -> (h: Option<u64>)
        ensures
            h == self.handle,
    {
        self.handle
    }

    /// Stops: clears the tracked handle and returns it so the caller can
    /// kill the process. Stopping when nothing is tracked is a no-op
    /// success that surrenders nothing.
    pub fn stop(&mut self) -> (victim: Option<u64>)
        ensures
            (*final(self), victim) == stop_spec(*old(self)),
    {
        let victim = self.handle;
        self.handle = Option::None;
        victim
    }

    /// Tracks the process just spawned for a start, returning any handle
    /// it displaces so the caller can kill that process. A start stops
    /// the previous instance first, spawns, then tracks.
    pub fn track(&mut self, h: u64) -> (victim: Option<u64>)
        ensures
            (*final(self), victim) == start_spec(*old(self), h),
    {
        let victim = self.handle;
        self.handle = Option::Some(h);
        victim
    }
}

/// Two starts in a row leave exactly one tracked process, the second: the
/// first start tracked the first handle, and the second start surrendered
/// it for teardown before tracking its own.
pub proof fn lemma_start_twice(s0: Supervisor, h1: u64, h2: u64)
    requires
        s0.handle is None,
    ensures
        ({
            let (s1, v1) = start_spec(s0, h1);
            let (s2, v2) = start_spec(s1, h2);
            &&& v1 is None
            &&& s1.handle == Option::Some(h1)
            &&& v2 == Option::Some(h1)
            &&& s2.handle == Option::Some(h2)
        }),
{
}

/// Stopping when nothing is running succeeds, changes nothing and
/// surrenders nothing.
pub proof fn lemma_stop_idle(s: Supervisor)
    requires
        s.handle is None,
    ensures
        stop_spec(s) == (s, Option::<u64>::None),
{
}

} // verus!
