use vstd::prelude::*;
use crate::naming::opt_view;
use crate::numbers::all_digits;
use crate::numbers::dec_val;
use crate::numbers::parse_u64;

verus! {

/// The program's configuration: the target URL, how many workers fetch in
/// parallel (four unless asked otherwise), and the output path if the user
/// chose one.
pub struct Args {
    pub url: String,
    pub thread: u64,
    pub output: Option<String>,
}

/// The character contents of the raw argument tokens.
pub open spec fn token_views(argv: Seq<String>) -> Seq<Seq<char>> {
    argv.map_values(|s: String| s@)
}

/// An acceptable worker-count value: a non-empty digit string whose value is
/// at least one and fits in a `u64`.
pub open spec fn valid_thread_token(v: Seq<char>) -> bool {
    v.len() > 0 && all_digits(v) && 1 <= dec_val(v) <= u64::MAX
}

/// What parsing the tokens from position `i` onward yields, given what has
/// been accepted so far: tokens come in flag/value pairs, later occurrences
/// of a flag override earlier ones, and a missing URL, a dangling flag, an
/// unknown flag or a bad worker count rejects the whole line.
pub open spec fn spec_parse_from(
    argv: Seq<Seq<char>>,
    i: int,
    url: Option<Seq<char>>,
    thread: u64,
    output: Option<Seq<char>>,
) -> Option<(Seq<char>, u64, Option<Seq<char>>)>
    decreases argv.len() - i,
{
    if i >= argv.len() {
        match url {
            Some(u) => Some((u, thread, output)),
            None => None,
        }
    } else if i + 2 > argv.len() {
        None
    } else if argv[i] == "-u"@ || argv[i] == "--url"@ {
        spec_parse_from(argv, i + 2, Some(argv[i + 1]), thread, output)
    } else if argv[i] == "-t"@ || argv[i] == "--thread"@ {
        if valid_thread_token(argv[i + 1]) {
            spec_parse_from(argv, i + 2, url, dec_val(argv[i + 1]) as u64, output)
        } else {
            None
        }
    } else if argv[i] == "-o"@ || argv[i] == "--output"@ {
        spec_parse_from(argv, i + 2, url, thread, Some(argv[i + 1]))
    } else {
        None
    }
}

/// What parsing a whole token line yields: URL unset, worker count four,
/// output unset until flags say otherwise.
pub open spec fn spec_parse_args(argv: Seq<Seq<char>>) -> Option<(Seq<char>, u64, Option<Seq<char>>)> {
    spec_parse_from(argv, 0, None, 4u64, None)
}

/// Character-for-character string equality.
fn str_eq(a: &str, b: &str) -> (r: bool)
    ensures
        r == (a@ == b@),
{
    let x = a.to_owned();
    let y = b.to_owned();
    x == y
}

impl Args {
    /// Parse the command-line tokens, program name already removed. The
    /// accepted flags are `-u`/`--url` (required), `-t`/`--thread` (a
    /// positive decimal worker count, four when absent) and `-o`/`--output`,
    /// each followed by its value.
    pub fn parse_args(argv: &Vec<String>) -> (r: Option<Args>)
        ensures
            match r {
                Some(a) => spec_parse_args(token_views(argv@)) == Some(
                    (a.url@, a.thread, opt_view(a.output)),
                ),
                None => spec_parse_args(token_views(argv@)) is None,
            },
    {
        let ghost toks = token_views(argv@);
        let mut url: Option<String> = None;
        let mut thread: u64 = 4;
        let mut output: Option<String> = None;
        let mut i: usize = 0;
        while i < argv.len()
            invariant
                toks == token_views(argv@),
                toks.len() == argv@.len(),
                forall|j: int| 0 <= j < toks.len() ==> toks[j] == argv@[j]@,
                i <= argv@.len(),
                spec_parse_args(toks) == spec_parse_from(
                    toks,
                    i as int,
                    opt_view(url),
                    thread,
                    opt_view(output),
                ),
            decreases argv@.len() - i,
        {
            if i + 1 >= argv.len() {
                return None;
            }
            let flag = &argv[i];
            let value = &argv[i + 1];
            let ghost url0 = opt_view(url);
            let ghost thread0 = thread;
            let ghost output0 = opt_view(output);
            if str_eq(flag.as_str(), "-u") || str_eq(flag.as_str(), "--url") {
                url = Some(value.clone());
                proof {
                    assert(spec_parse_from(toks, i as int, url0, thread0, output0)
                        == spec_parse_from(toks, i + 2, opt_view(url), thread, opt_view(output)));
                }
            } else if str_eq(flag.as_str(), "-t") || str_eq(flag.as_str(), "--thread") {
                match parse_u64(value.as_str()) {
                    Some(v) => {
                        if v >= 1 {
                            thread = v;
                            proof {
                                assert(valid_thread_token(toks[i as int + 1]));
                                assert(spec_parse_from(toks, i as int, url0, thread0, output0)
                                    == spec_parse_from(
                                    toks,
                                    i + 2,
                                    opt_view(url),
                                    thread,
                                    opt_view(output),
                                ));
                            }
                        } else {
                            proof {
                                assert(!valid_thread_token(toks[i as int + 1]));
                            }
                            return None;
                        }
                    },
                    None => {
                        proof {
                            assert(!valid_thread_token(toks[i as int + 1]));
                        }
                        return None;
                    },
                }
            } else if str_eq(flag.as_str(), "-o") || str_eq(flag.as_str(), "--output") {
                output = Some(value.clone());
                proof {
                    assert(spec_parse_from(toks, i as int, url0, thread0, output0)
                        == spec_parse_from(toks, i + 2, opt_view(url), thread, opt_view(output)));
                }
            } else {
                return None;
            }
            i = i + 2;
        }
        match url {
            Some(u) => Some(Args { url: u, thread, output }),
            None => None,
        }
    }
}

} // verus!
