//! Resolution of the command-line settings and their defaults.
use vstd::prelude::*;
use crate::download::{DEFAULT_MEMORY_KB, DEFAULT_THREADS};

verus! {

/// The options as the command line gave them; an absent number is 0 and an
/// absent text is empty.
pub struct Args {
    pub flag_threads: u64,
    pub flag_t: u64,
    pub flag_memory: u64,
    pub flag_m: u64,
    pub flag_filename: String,
    pub flag_f: String,
    pub flag_d: bool,
    pub flag_debug: bool,
    pub flag_o: String,
    pub flag_originfile: String,
    pub arg_url: String,
}

pub open spec fn is_last_index(s: Seq<char>, c: char, i: int) -> bool {
    0 <= i < s.len() && s[i] == c && forall|j: int| i < j < s.len() ==> s[j] != c
}

/// The last `/`-separated segment of `s` (all of `s` where it holds no `/`).
pub open spec fn last_segment(s: Seq<char>) -> Seq<char> {
    if exists|i: int| is_last_index(s, '/', i) {
        s.skip((choose|i: int| is_last_index(s, '/', i)) + 1)
    } else {
        s
    }
}

fn last_segment_of(s: &str) -> (r: String)
    ensures
        r@ == last_segment(s@),
{
    let n = s.unicode_len();
    let mut i: usize = n;
    while i > 0
        invariant
            i <= n == s@.len(),
            forall|j: int| i <= j < n ==> s@[j] != '/',
        decreases i,
    {
        if s.get_char(i - 1) == '/' {
            proof {
                let w = i - 1;
                assert(is_last_index(s@, '/', w));
                let k = choose|k: int| is_last_index(s@, '/', k);
                if k < w {
                    assert(s@[w] != '/');
                } else if w < k {
                    assert(s@[k] != '/');
                }
            }
            let seg = s.substring_char(i, n);
            assert(seg@ =~= s@.skip(i as int));
            return seg.to_owned();
        }
        i = i - 1;
    }
    proof {
        assert(!exists|k: int| is_last_index(s@, '/', k));
    }
    let whole = s.substring_char(0, n);
    assert(whole@ =~= s@);
    whole.to_owned()
}

/// Resolves the settings: a worker count of 0 becomes 5, a chunk size of 0
/// becomes 256 kilobytes, and an empty file name becomes the last segment of
/// the URL. Returns (url, threads, filename, memory, debug, originfile).
pub fn parse_args(args: Args) -> (r: (String, u64, String, u64, bool, String))
    ensures
        r.0@ == args.arg_url@,
        r.1 == if args.flag_threads == 0 { DEFAULT_THREADS } else { args.flag_threads },
        r.2@ == if args.flag_filename@.len() == 0 {
            last_segment(args.arg_url@)
        } else {
            args.flag_filename@
        },
        r.3 == if args.flag_memory == 0 { DEFAULT_MEMORY_KB } else { args.flag_memory },
        r.4 == args.flag_debug,
        r.5@ == args.flag_originfile@,
{
    let threads = if args.flag_threads == 0 { DEFAULT_THREADS } else { args.flag_threads };
    let filename = if args.flag_filename.as_str().unicode_len() == 0 {
        last_segment_of(args.arg_url.as_str())
    } else {
        args.flag_filename
    };
    let memory = if args.flag_memory == 0 { DEFAULT_MEMORY_KB } else { args.flag_memory };
    (args.arg_url, threads, filename, memory, args.flag_debug, args.flag_originfile)
}

} // verus!
