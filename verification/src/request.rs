//! The request builder: splitting a form payload into pairs and fixing
//! the one request the dispatcher will send.

use vstd::prelude::*;
use crate::args::{Intent, Method, RequestIntent};
use crate::codec::{json_parse_of, parse_json};
use crate::urlcheck::ValidatedUrl;

verus! {

/// The index of the first occurrence of `c` in `s`, or `s.len()`.
pub open spec fn find_char(s: Seq<char>, c: char) -> int
    decreases s.len(),
{
    if s.len() == 0 {
        0
    } else if s[0] == c {
        0
    } else {
        1 + find_char(s.skip(1), c)
    }
}

/// `find_char` lands in bounds, on `c`, and after no `c`.
pub proof fn lemma_find_char(s: Seq<char>, c: char)
    ensures
        0 <= find_char(s, c) <= s.len(),
        find_char(s, c) < s.len() ==> s[find_char(s, c)] == c,
        forall|j: int| 0 <= j < find_char(s, c) ==> s[j] != c,
    decreases s.len(),
{
    if s.len() > 0 && s[0] != c {
        lemma_find_char(s.skip(1), c);
        let f1 = find_char(s.skip(1), c);
        if f1 < s.skip(1).len() {
            assert(s.skip(1)[f1] == s[f1 + 1]);
        }
        assert forall|j: int| 0 <= j < find_char(s, c) implies s[j] != c by {
            if j >= 1 {
                assert(s.skip(1)[j - 1] == s[j]);
            }
        }
    }
}

/// Where the first `c` is known, `find_char` returns its place.
pub proof fn lemma_find_char_at(s: Seq<char>, c: char, k: int)
    requires
        0 <= k <= s.len(),
        forall|j: int| 0 <= j < k ==> s[j] != c,
        k < s.len() ==> s[k] == c,
    ensures
        find_char(s, c) == k,
    decreases k,
{
    if k > 0 {
        assert(s[0] != c);
        assert(forall|j: int| 0 <= j < s.skip(1).len() ==> s.skip(1)[j] == s[j + 1]);
        lemma_find_char_at(s.skip(1), c, k - 1);
    }
}

/// One `key=value` pair: the key stands before the first `=`, the value
/// after it; with no `=` the whole piece is the key and the value is
/// empty.
pub open spec fn pair_of(piece: Seq<char>) -> (Seq<char>, Seq<char>) {
    let j = find_char(piece, '=');
    if j == piece.len() {
        (piece, Seq::empty())
    } else {
        (piece.take(j), piece.skip(j + 1))
    }
}

/// The form pairs of a payload: split on `&`, each piece split at its
/// first `=`. An empty payload yields the single pair of two empties.
pub open spec fn form_pairs(s: Seq<char>) -> Seq<(Seq<char>, Seq<char>)>
    decreases s.len(),
    via form_pairs_decreases
{
    let i = find_char(s, '&');
    if i == s.len() {
        seq![pair_of(s)]
    } else {
        seq![pair_of(s.take(i))] + form_pairs(s.skip(i + 1))
    }
}

#[via_fn]
proof fn form_pairs_decreases(s: Seq<char>) {
    lemma_find_char(s, '&');
}

/// The model of an exec pair list.
pub open spec fn pairs_view(v: Seq<(String, String)>) -> Seq<(Seq<char>, Seq<char>)> {
    Seq::new(v.len(), |i: int| (v[i].0@, v[i].1@))
}

/// Splits one piece at its first `=`, as `pair_of` says.
#[verifier::loop_isolation(false)]
fn split_pair(piece: &str) -> (r: (String, String))
    ensures
        (r.0@, r.1@) == pair_of(piece@),
{
    let n: usize = piece.unicode_len();
    let mut j: usize = 0;
    while j < n && piece.get_char(j) != '='
        invariant
            j <= n,
            forall|q: int| 0 <= q < j ==> piece@[q] != '=',
        decreases n - j,
    {
        j = j + 1;
    }
    proof {
        lemma_find_char_at(piece@, '=', j as int);
    }
    if j == n {
        proof {
            reveal_strlit("");
            assert(""@ =~= Seq::<char>::empty());
        }
        (piece.to_owned(), "".to_owned())
    } else {
        let k = piece.substring_char(0, j).to_owned();
        let v = piece.substring_char(j + 1, n).to_owned();
        proof {
            assert(piece@.subrange(0, j as int) =~= piece@.take(j as int));
            assert(piece@.subrange(j + 1, n as int) =~= piece@.skip(j + 1));
        }
        (k, v)
    }
}

/// Splits a form payload into its pairs, as `form_pairs` says.
#[verifier::loop_isolation(false)]
pub fn split_form(data: &str) -> (r: Vec<(String, String)>)
    ensures
        pairs_view(r@) == form_pairs(data@),
{
    let n: usize = data.unicode_len();
    let mut out: Vec<(String, String)> = Vec::new();
    let mut start: usize = 0;
    let mut i: usize = 0;
    proof {
        assert(data@.skip(0) =~= data@);
        assert(pairs_view(out@) =~= Seq::<(Seq<char>, Seq<char>)>::empty());
    }
    while i < n
        invariant
            start <= i <= n,
            forall|q: int| start <= q < i ==> data@[q] != '&',
            pairs_view(out@) + form_pairs(data@.skip(start as int)) == form_pairs(data@),
        decreases n - i,
    {
        if data.get_char(i) == '&' {
            let piece = data.substring_char(start, i);
            let p = split_pair(piece);
            let ghost out_pre = pairs_view(out@);
            out.push(p);
            proof {
                let rest = data@.skip(start as int);
                assert(forall|q: int| 0 <= q < rest.len() ==> rest[q] == data@[q + start]);
                lemma_find_char_at(rest, '&', i - start);
                assert(rest.take(i - start) =~= piece@);
                assert(rest.skip(i - start + 1) =~= data@.skip(i + 1));
                assert(form_pairs(rest) == seq![pair_of(piece@)] + form_pairs(data@.skip(i + 1)));
                assert(pairs_view(out@) =~= out_pre + seq![(p.0@, p.1@)]);
                assert(pairs_view(out@) + form_pairs(data@.skip(i + 1)) =~= form_pairs(data@));
            }
            start = i + 1;
            i = i + 1;
        } else {
            i = i + 1;
        }
    }
    let piece = data.substring_char(start, n);
    let p = split_pair(piece);
    let ghost out_pre = pairs_view(out@);
    out.push(p);
    proof {
        let rest = data@.skip(start as int);
        assert(forall|q: int| 0 <= q < rest.len() ==> rest[q] == data@[q + start]);
        lemma_find_char_at(rest, '&', n - start);
        assert(rest =~= piece@);
        assert(form_pairs(rest) == seq![pair_of(piece@)]);
        assert(pairs_view(out@) =~= out_pre + seq![(p.0@, p.1@)]);
        assert(pairs_view(out@) =~= form_pairs(data@));
    }
    out
}

/// The one request the dispatcher will perform.
#[derive(Debug, PartialEq, Eq)]
pub enum RequestPlan {
    /// GET, no body.
    Get { url: String },
    /// POST of a form body, already split into pairs.
    PostForm { url: String, pairs: Vec<(String, String)> },
    /// POST of a raw JSON body under a JSON content type.
    PostJson { url: String, body: String },
}

/// The model of a request plan.
pub enum PlanModel {
    Get { url: Seq<char> },
    PostForm { url: Seq<char>, pairs: Seq<(Seq<char>, Seq<char>)> },
    PostJson { url: Seq<char>, body: Seq<char> },
}

impl View for RequestPlan {
    type V = PlanModel;

    open spec fn view(&self) -> PlanModel {
        match self {
            RequestPlan::Get { url } => PlanModel::Get { url: url@ },
            RequestPlan::PostForm { url, pairs } => PlanModel::PostForm {
                url: url@,
                pairs: pairs_view(pairs@),
            },
            RequestPlan::PostJson { url, body } => PlanModel::PostJson {
                url: url@,
                body: body@,
            },
        }
    }
}

/// The payload of `--json` did not parse as JSON; nothing is sent.
#[derive(Debug, PartialEq, Eq)]
pub struct JsonBodyError;

/// The plan owed to an intent on a validated URL: GET sends no body; a
/// JSON POST sends the payload verbatim once it is checked to parse;
/// a form POST sends the payload split into pairs. `None` is owed
/// exactly when a JSON payload does not parse.
pub open spec fn plan_of(it: Intent, url_text: Seq<char>) -> Option<PlanModel> {
    match it.method {
        Method::Get => Some(PlanModel::Get { url: url_text }),
        Method::Post => {
            if it.is_json {
                if json_parse_of(it.data) is Some {
                    Some(PlanModel::PostJson { url: url_text, body: it.data })
                } else {
                    None
                }
            } else {
                Some(PlanModel::PostForm { url: url_text, pairs: form_pairs(it.data) })
            }
        },
    }
}

/// Builds the request plan for an intent on a validated URL, exactly as
/// `plan_of` says; it fails just when a JSON payload does not parse.
pub fn build_plan(intent: &RequestIntent, vurl: &ValidatedUrl) -> (r: Result<
    RequestPlan,
    JsonBodyError,
>)
    ensures
        match r {
            Ok(p) => plan_of(intent@, vurl.parts@.text) == Some(p@),
            Err(_) => plan_of(intent@, vurl.parts@.text) is None,
        },
{
    let url: String = vurl.as_text().to_owned();
    match intent.method {
        Method::Get => Ok(RequestPlan::Get { url }),
        Method::Post => {
            if intent.is_json {
                match parse_json(intent.data.as_str()) {
                    Some(_) => Ok(RequestPlan::PostJson { url, body: intent.data.clone() }),
                    None => Err(JsonBodyError),
                }
            } else {
                Ok(RequestPlan::PostForm { url, pairs: split_form(intent.data.as_str()) })
            }
        },
    }
}

} // verus!
