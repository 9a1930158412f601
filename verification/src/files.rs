//! Small text rules around files, endpoints and evaluation output.
use vstd::prelude::*;
use crate::chars::{
    contains, contains_exec, replace_all, replace_exec, rfind, rfind_exec, lemma_rfind,
    matches_at, slice, to_chars, from_chars, trim_start, trim_start_exec,
};

verus! {

/// A model file name is acceptable only as a plain name inside the models directory: not
/// empty, no path separator, no `..`.
pub open spec fn safe_name(name: Seq<char>) -> bool {
    name.len() > 0 && !contains(name, seq!['/']) && !contains(name, seq!['\\']) && !contains(
        name,
        seq!['.', '.'],
    )
}

/// Whether a file name is safe to resolve inside the models directory (see [`safe_name`]).
pub fn is_safe_name(name: &str) -> (r: bool)
    ensures
        r == safe_name(name@),
{
    let v = to_chars(name);
    let slash = vec!['/'];
    let back = vec!['\\'];
    let dots = vec!['.', '.'];
    assert(slash@ =~= seq!['/']);
    assert(back@ =~= seq!['\\']);
    assert(dots@ =~= seq!['.', '.']);
    v.len() > 0 && !contains_exec(&v, &slash) && !contains_exec(&v, &back) && !contains_exec(
        &v,
        &dots,
    )
}

/// The status endpoint next to a chat endpoint: `/chat/completions` becomes `/hello`.
pub fn hello_url(api_url: &str) -> (r: String)
    ensures
        r@ == replace_all(api_url@, "/chat/completions"@, "/hello"@),
{
    let v = to_chars(api_url);
    let p = to_chars("/chat/completions");
    let h = to_chars("/hello");
    if p.len() == 0 {
        return from_chars(v.as_slice());
    }
    let r = replace_exec(&v, &p, &h);
    from_chars(r.as_slice())
}

/// The prose the user reads of a reply: what follows the last `</think>`, without leading
/// whitespace (all of it when there is no closed reasoning block).
pub open spec fn after_think(s: Seq<char>) -> Seq<char> {
    match rfind(s, "</think>"@) {
        Some(i) => trim_start(s.skip(i + "</think>"@.len())),
        None => trim_start(s),
    }
}

/// Isolates the prose of a reply from its reasoning block (see [`after_think`]).
pub fn strip_think(s: &str) -> (r: String)
    ensures
        r@ == after_think(s@),
{
    let v = to_chars(s);
    let m = to_chars("</think>");
    match rfind_exec(&v, &m) {
        Some(i) => {
            proof {
                lemma_rfind(v@, m@);
                assert(matches_at(v@, m@, i as int));
            }
            assert(i + m.len() <= v.len());
            let rest = slice(&v, i + m.len(), v.len());
            assert(rest@ =~= s@.skip(i + "</think>"@.len()));
            from_chars(trim_start_exec(&rest).as_slice())
        },
        None => from_chars(trim_start_exec(&v).as_slice()),
    }
}

} // verus!

verus! {

/// Why a model file name is refused, if it is (`nome file non valido: NAME`).
pub open spec fn model_file_refusal(name: Seq<char>) -> Option<Seq<char>> {
    if safe_name(name) {
        None
    } else {
        Some("nome file non valido: "@ + name)
    }
}

/// Checks a model file name before anything touches the file system (see
/// [`model_file_refusal`]).
pub fn model_file_error(name: &str) -> (r: Option<String>)
    ensures
        r matches Some(e) ==> model_file_refusal(name@) == Some(e@),
        r is None ==> model_file_refusal(name@) is None,
{
    if is_safe_name(name) {
        None
    } else {
        let mut v = to_chars("nome file non valido: ");
        crate::chars::append_str(&mut v, name);
        Some(from_chars(v.as_slice()))
    }
}

} // verus!
