//! The argument interpreter: a left-to-right scan of the command-line
//! tokens into a request intent, last-applied flag winning.

use vstd::prelude::*;

verus! {

/// The two supported HTTP methods.
#[derive(Clone, Copy, PartialEq, Eq, Structural, Debug)]
pub enum Method {
    Get,
    Post,
}

/// What the user asked for: which URL, which method, and which payload.
/// `data` is the payload of the last `-d`/`--json`, empty when none was
/// given; `is_json` says the last payload flag was `--json`.
#[derive(Debug, PartialEq, Eq)]
pub struct RequestIntent {
    pub url: String,
    pub method: Method,
    pub data: String,
    pub is_json: bool,
}

/// The model of a request intent.
pub struct Intent {
    pub url: Seq<char>,
    pub method: Method,
    pub data: Seq<char>,
    pub is_json: bool,
}

impl View for RequestIntent {
    type V = Intent;

    open spec fn view(&self) -> Intent {
        Intent { url: self.url@, method: self.method, data: self.data@, is_json: self.is_json }
    }
}

/// Why the token scan rejected the command line.
#[derive(Debug, PartialEq, Eq)]
pub enum UsageError {
    /// `-X` was the last token.
    MissingMethodArg,
    /// `-d` was the last token.
    MissingDataArg,
    /// `--json` was the last token.
    MissingJsonArg,
    /// A second positional token appeared; it is carried here.
    UnknownArgument(String),
    /// No positional token appeared at all.
    MissingUrl,
    /// The resolved method, carried here, is neither GET nor POST.
    UnsupportedMethod(String),
}

/// The model of a usage error.
pub enum UsageErr {
    MissingMethodArg,
    MissingDataArg,
    MissingJsonArg,
    UnknownArgument(Seq<char>),
    MissingUrl,
    UnsupportedMethod(Seq<char>),
}

impl View for UsageError {
    type V = UsageErr;

    open spec fn view(&self) -> UsageErr {
        match self {
            UsageError::MissingMethodArg => UsageErr::MissingMethodArg,
            UsageError::MissingDataArg => UsageErr::MissingDataArg,
            UsageError::MissingJsonArg => UsageErr::MissingJsonArg,
            UsageError::UnknownArgument(t) => UsageErr::UnknownArgument(t@),
            UsageError::MissingUrl => UsageErr::MissingUrl,
            UsageError::UnsupportedMethod(m) => UsageErr::UnsupportedMethod(m@),
        }
    }
}

/// What the Unicode uppercase mapping returns; a function of the
/// characters alone.
pub uninterp spec fn upper_of(s: Seq<char>) -> Seq<char>;

/// Relies on str::to_uppercase: the Unicode uppercase mapping of the
/// string, depending on its characters alone.
#[verifier::external_body]
fn to_upper(s: &String) -> (r: String)
    ensures
        r@ == upper_of(s@),
{
    s.to_uppercase()
}

/// The scan's running state: the tokens seen so far, folded.
pub struct ScanState {
    pub url: Option<Seq<char>>,
    pub method: Seq<char>,
    pub data: Seq<char>,
    pub is_json: bool,
}

/// The state before any token is read: method GET, no payload.
pub open spec fn init_state() -> ScanState {
    ScanState { url: None, method: "GET"@, data: ""@, is_json: false }
}

/// One left-to-right pass over the tokens. `-X` takes the next token,
/// uppercased, as the method; `-d`/`--json` take the next token as the
/// payload and force POST; the first other token is the URL and a
/// second one is an error. The last-applied setting wins.
pub open spec fn scan(args: Seq<Seq<char>>, st: ScanState) -> Result<ScanState, UsageErr>
    decreases args.len(),
{
    if args.len() == 0 {
        Ok(st)
    } else if args[0] == "-X"@ {
        if args.len() < 2 {
            Err(UsageErr::MissingMethodArg)
        } else {
            scan(
                args.skip(2),
                ScanState { method: upper_of(args[1]), url: st.url, data: st.data, is_json: st.is_json },
            )
        }
    } else if args[0] == "-d"@ {
        if args.len() < 2 {
            Err(UsageErr::MissingDataArg)
        } else {
            scan(
                args.skip(2),
                ScanState { data: args[1], method: "POST"@, url: st.url, is_json: st.is_json },
            )
        }
    } else if args[0] == "--json"@ {
        if args.len() < 2 {
            Err(UsageErr::MissingJsonArg)
        } else {
            scan(
                args.skip(2),
                ScanState { data: args[1], method: "POST"@, url: st.url, is_json: true },
            )
        }
    } else {
        if st.url is None {
            scan(
                args.skip(1),
                ScanState { url: Some(args[0]), method: st.method, data: st.data, is_json: st.is_json },
            )
        } else {
            Err(UsageErr::UnknownArgument(args[0]))
        }
    }
}

/// The interpreter's answer on a whole token list: the scan, then the
/// demand for a URL and for a method that is exactly GET or POST.
pub open spec fn interpret(args: Seq<Seq<char>>) -> Result<Intent, UsageErr> {
    match scan(args, init_state()) {
        Err(e) => Err(e),
        Ok(st) => match st.url {
            None => Err(UsageErr::MissingUrl),
            Some(u) => {
                if st.method == "GET"@ {
                    Ok(Intent { url: u, method: Method::Get, data: st.data, is_json: st.is_json })
                } else if st.method == "POST"@ {
                    Ok(Intent { url: u, method: Method::Post, data: st.data, is_json: st.is_json })
                } else {
                    Err(UsageErr::UnsupportedMethod(st.method))
                }
            },
        },
    }
}

/// The model of a token list.
pub open spec fn toks_view(args: Seq<String>) -> Seq<Seq<char>> {
    Seq::new(args.len(), |i: int| args[i]@)
}

/// The model of the interpreter's exec result.
pub open spec fn parse_view(r: Result<RequestIntent, UsageError>) -> Result<Intent, UsageErr> {
    match r {
        Ok(it) => Ok(it@),
        Err(e) => Err(e@),
    }
}

/// Whether a token equals a fixed flag word.
pub(crate) fn is_tok(s: &String, lit: &str) -> (r: bool)
    ensures
        r == (s@ == lit@),
{
    let l: String = lit.to_owned();
    *s == l
}

/// Interprets the command-line tokens (the program name excluded) as a
/// request intent, exactly as `interpret` says.
#[verifier::loop_isolation(false)]
pub fn parse_args(args: &Vec<String>) -> (r: Result<RequestIntent, UsageError>)
    ensures
        parse_view(r) == interpret(toks_view(args@)),
{
    let ghost toks = toks_view(args@);
    let mut i: usize = 0;
    let mut url: Option<String> = None;
    let mut method: String = "GET".to_owned();
    let mut data: String = "".to_owned();
    let mut is_json: bool = false;
    proof {
        assert(toks.skip(0) =~= toks);
    }
    while i < args.len()
        invariant
            i <= args.len(),
            scan(toks.skip(i as int), cur_state(&url, &method, &data, is_json)) == scan(
                toks,
                init_state(),
            ),
        decreases args.len() - i,
    {
        let ghost rest = toks.skip(i as int);
        proof {
            assert(rest[0] == toks[i as int]);
            assert(rest.len() == toks.len() - i);
        }
        if is_tok(&args[i], "-X") {
            if i + 1 < args.len() {
                method = to_upper(&args[i + 1]);
                proof {
                    assert(rest[1] == toks[i + 1]);
                    assert(rest.skip(2) =~= toks.skip(i + 2));
                }
                i = i + 2;
            } else {
                proof {
                    assert(rest.len() < 2);
                }
                return Err(UsageError::MissingMethodArg);
            }
        } else if is_tok(&args[i], "-d") {
            if i + 1 < args.len() {
                data = args[i + 1].clone();
                method = "POST".to_owned();
                proof {
                    assert(rest[1] == toks[i + 1]);
                    assert(rest.skip(2) =~= toks.skip(i + 2));
                }
                i = i + 2;
            } else {
                proof {
                    assert(rest.len() < 2);
                }
                return Err(UsageError::MissingDataArg);
            }
        } else if is_tok(&args[i], "--json") {
            if i + 1 < args.len() {
                data = args[i + 1].clone();
                method = "POST".to_owned();
                is_json = true;
                proof {
                    assert(rest[1] == toks[i + 1]);
                    assert(rest.skip(2) =~= toks.skip(i + 2));
                }
                i = i + 2;
            } else {
                proof {
                    assert(rest.len() < 2);
                }
                return Err(UsageError::MissingJsonArg);
            }
        } else {
            if url.is_none() {
                url = Some(args[i].clone());
                proof {
                    assert(rest.skip(1) =~= toks.skip(i + 1));
                }
                i = i + 1;
            } else {
                return Err(UsageError::UnknownArgument(args[i].clone()));
            }
        }
    }
    proof {
        assert(toks.skip(i as int).len() == 0);
    }
    match url {
        None => Err(UsageError::MissingUrl),
        Some(u) => {
            if is_tok(&method, "GET") {
                Ok(RequestIntent { url: u, method: Method::Get, data, is_json })
            } else if is_tok(&method, "POST") {
                Ok(RequestIntent { url: u, method: Method::Post, data, is_json })
            } else {
                Err(UsageError::UnsupportedMethod(method))
            }
        },
    }
}

/// The scan state the exec scan is holding.
pub open spec fn cur_state(
    url: &Option<String>,
    method: &String,
    data: &String,
    is_json: bool,
) -> ScanState {
    ScanState {
        url: match url {
            Some(u) => Some(u@),
            None => None,
        },
        method: method@,
        data: data@,
        is_json,
    }
}

} // verus!
