//! Intent detection on the user's request, used to force a tool call when the intent is
//! unambiguous (a web search, the weather of a city), and the shaping of tool results before
//! they enter the prompt.
use vstd::prelude::*;
use crate::chars::{
    collapse_ws, collapse_ws_exec, contains, contains_exec, replace_all, replace_exec, rfind,
    rfind_exec, slice, to_chars, from_chars, trim, trim_exec, append_str, lemma_rfind,
    matches_at, is_ws, is_ws_exec, find, find_exec, lemma_find, starts_with, starts_with_exec,
    utf8_len, utf8_len_capped, lemma_utf8_len_concat, lemma_utf8_len_single, char_width,
};
use crate::lower::{is_alnum, lowercase, str_to_lowercase, char_is_alphanumeric};

verus! {

/// Some word of `ws` occurs in `s`.
pub open spec fn any_contains(s: Seq<char>, ws: Seq<Seq<char>>) -> bool {
    exists|i: int| 0 <= i < ws.len() && contains(s, #[trigger] ws[i])
}

/// Every pattern of `ps`, in order, replaced by a space (each pattern is non-empty).
pub open spec fn blank_out(s: Seq<char>, ps: Seq<Seq<char>>) -> Seq<char>
    decreases ps.len(),
{
    if ps.len() == 0 {
        s
    } else {
        blank_out(replace_all(s, ps[0], " "@), ps.drop_first())
    }
}

/// Whether some word of `ws` occurs in `s`.
fn any_contains_exec(s: &Vec<char>, ws: &Vec<Vec<char>>) -> (r: bool)
    ensures
        r == any_contains(s@, ws@.map_values(|w: Vec<char>| w@)),
{
    let ghost wv = ws@.map_values(|w: Vec<char>| w@);
    let mut k: usize = 0;
    while k < ws.len()
        invariant
            k <= ws.len(),
            wv == ws@.map_values(|w: Vec<char>| w@),
            forall|i: int| 0 <= i < k ==> !contains(s@, #[trigger] wv[i]),
        decreases ws.len() - k,
    {
        if contains_exec(s, &ws[k]) {
            assert(wv[k as int] == ws@[k as int]@);
            return true;
        }
        assert(wv[k as int] == ws@[k as int]@);
        k = k + 1;
    }
    false
}

/// `blank_out` computed.
fn blank_out_exec(s: &Vec<char>, ps: &Vec<Vec<char>>) -> (r: Vec<char>)
    ensures
        r@ == blank_out(s@, ps@.map_values(|w: Vec<char>| w@)),
{
    let ghost pv = ps@.map_values(|w: Vec<char>| w@);
    let space = to_chars(" ");
    let mut q = slice(s, 0, s.len());
    assert(q@ =~= s@);
    assert(pv.skip(0) =~= pv);
    let mut k: usize = 0;
    while k < ps.len()
        invariant
            k <= ps.len(),
            pv == ps@.map_values(|w: Vec<char>| w@),
            space@ == " "@,
            blank_out(s@, pv) == blank_out(q@, pv.skip(k as int)),
        decreases ps.len() - k,
    {
        assert(pv.skip(k as int).drop_first() =~= pv.skip(k + 1));
        assert(pv.skip(k as int)[0] == ps@[k as int]@);
        if ps[k].len() > 0 {
            q = replace_exec(&q, &ps[k], &space);
        }
        k = k + 1;
    }
    assert(pv.skip(ps.len() as int) =~= Seq::<Seq<char>>::empty());
    q
}

// ---------------------------------------------------------------- tool results

/// The most characters of a tool result that enter the prompt: above what the web tools
/// return (a page fetch up to about 4100, a search about 3500).
pub const MAX_TOOL_RESULT_CHARS: usize = 6000;

/// A tool result cut to its first `MAX_TOOL_RESULT_CHARS` characters, with a truncation
/// marker, when longer than that.
pub open spec fn capped_result(r: Seq<char>) -> Seq<char> {
    if r.len() > MAX_TOOL_RESULT_CHARS {
        r.take(MAX_TOOL_RESULT_CHARS as int) + "\n…(troncato)"@
    } else {
        r
    }
}

/// Caps a tool result before it enters the context (see [`capped_result`]).
pub fn cap_tool_result(result: String) -> (r: String)
    ensures
        r@ == capped_result(result@),
{
    let v = to_chars(result.as_str());
    if v.len() > MAX_TOOL_RESULT_CHARS {
        let mut t = slice(&v, 0, MAX_TOOL_RESULT_CHARS);
        append_str(&mut t, "\n…(troncato)");
        assert(t@ =~= capped_result(result@));
        from_chars(t.as_slice())
    } else {
        result
    }
}

/// How a tool result is put back into the prompt: Qwen wraps it in `<tool_response>`; Gemma
/// gets neutral text (it would imitate and leak the ChatML marker).
pub open spec fn tool_response_text(result: Seq<char>, gemma: bool) -> Seq<char> {
    if gemma {
        "Risultato dello strumento:\n"@ + result
    } else {
        "<tool_response>\n"@ + result + "\n</tool_response>"@
    }
}

/// The tool result as injected into the prompt (see [`tool_response_text`]).
pub fn tool_resp(result: &str, gemma: bool) -> (r: String)
    ensures
        r@ == tool_response_text(result@, gemma),
{
    let mut p: Vec<char> = Vec::new();
    if gemma {
        append_str(&mut p, "Risultato dello strumento:\n");
        append_str(&mut p, result);
    } else {
        append_str(&mut p, "<tool_response>\n");
        append_str(&mut p, result);
        append_str(&mut p, "\n</tool_response>");
    }
    let r = from_chars(p.as_slice());
    assert(r@ =~= tool_response_text(result@, gemma));
    r
}

// ---------------------------------------------------------------- city names

pub open spec fn is_city_punct(c: char) -> bool {
    c == '?' || c == '!' || c == '.' || c == ','
}

/// `s` with `?`, `!`, `.` and `,` turned into spaces.
pub open spec fn punct_to_space(s: Seq<char>) -> Seq<char> {
    Seq::new(s.len(), |i: int| if is_city_punct(s[i]) { ' ' } else { s[i] })
}

/// Time words, articles and prepositions that are not part of a place name (each padded by
/// spaces, so only whole words match).
pub open spec fn city_noise() -> Seq<Seq<char>> {
    seq![
        " oggi "@, " domani "@, " dopodomani "@, " stasera "@, " stamattina "@, " stanotte "@,
        " adesso "@, " ora "@, " in questo momento "@, " questo momento "@, " questo "@,
        " momento "@, " nel weekend "@, " weekend "@, " questa settimana "@,
        " la prossima settimana "@, " prossima settimana "@, " il "@, " lo "@, " la "@, " i "@,
        " le "@, " per "@, " nel "@, " nella "@,
    ]
}

fn city_noise_exec() -> (r: Vec<Vec<char>>)
    ensures
        r@.map_values(|w: Vec<char>| w@) == city_noise(),
{
    let r = vec![
        to_chars(" oggi "), to_chars(" domani "), to_chars(" dopodomani "), to_chars(" stasera "),
        to_chars(" stamattina "), to_chars(" stanotte "), to_chars(" adesso "), to_chars(" ora "),
        to_chars(" in questo momento "), to_chars(" questo momento "), to_chars(" questo "),
        to_chars(" momento "), to_chars(" nel weekend "), to_chars(" weekend "),
        to_chars(" questa settimana "), to_chars(" la prossima settimana "),
        to_chars(" prossima settimana "), to_chars(" il "), to_chars(" lo "), to_chars(" la "),
        to_chars(" i "), to_chars(" le "), to_chars(" per "), to_chars(" nel "), to_chars(" nella "),
    ];
    assert(r@.map_values(|w: Vec<char>| w@) =~= city_noise());
    r
}

/// A place name out of the text that follows it: punctuation, time words, articles and
/// prepositions removed, whitespace collapsed (a place may have several words).
pub open spec fn city_of(s: Seq<char>) -> Seq<char> {
    collapse_ws(blank_out(" "@ + punct_to_space(s) + " "@, city_noise()))
}

/// Cleans the text extracted after a place preposition down to the place name.
pub fn clean_city(s: &str) -> (r: String)
    ensures
        r@ == city_of(s@),
{
    let v = to_chars(s);
    let mut c: Vec<char> = Vec::new();
    c.push(' ');
    let mut i: usize = 0;
    while i < v.len()
        invariant
            i <= v.len(),
            c@ == seq![' '] + punct_to_space(v@).take(i as int),
        decreases v.len() - i,
    {
        let ch = v[i];
        if ch == '?' || ch == '!' || ch == '.' || ch == ',' {
            c.push(' ');
        } else {
            c.push(ch);
        }
        i = i + 1;
        assert(c@ =~= seq![' '] + punct_to_space(v@).take(i as int));
    }
    c.push(' ');
    assert(punct_to_space(v@).take(v.len() as int) =~= punct_to_space(v@));
    assert(c@ =~= " "@ + punct_to_space(s@) + " "@) by {
        reveal_strlit(" ");
    }
    let cleaned = blank_out_exec(&c, &city_noise_exec());
    let r = collapse_ws_exec(&cleaned);
    from_chars(r.as_slice())
}

// ---------------------------------------------------------------- weather

pub open spec fn weather_triggers() -> Seq<Seq<char>> {
    seq![
        "che tempo"@, "tempo fa"@, "meteo"@, "temperatura"@, "previsioni"@, "pioggia"@,
        "pioverà"@, "piovera"@, "piove"@, "gradi ci sono"@, "gradi fa"@, "fa freddo"@,
        "fa caldo"@, "c'è il sole"@,
    ]
}

fn weather_triggers_exec() -> (r: Vec<Vec<char>>)
    ensures
        r@.map_values(|w: Vec<char>| w@) == weather_triggers(),
{
    let r = vec![
        to_chars("che tempo"), to_chars("tempo fa"), to_chars("meteo"), to_chars("temperatura"),
        to_chars("previsioni"), to_chars("pioggia"), to_chars("pioverà"), to_chars("piovera"),
        to_chars("piove"), to_chars("gradi ci sono"), to_chars("gradi fa"), to_chars("fa freddo"),
        to_chars("fa caldo"), to_chars("c'è il sole"),
    ];
    assert(r@.map_values(|w: Vec<char>| w@) =~= weather_triggers());
    r
}

/// Weather words and filler removed when no place preposition gives the city (longer
/// patterns first).
pub open spec fn weather_noise() -> Seq<Seq<char>> {
    seq![
        "che tempo fa"@, "che tempo"@, "tempo fa"@, "il meteo"@, "meteo"@, "temperatura"@,
        "previsioni del tempo"@, "previsioni meteo"@, "previsioni"@, "quanti gradi ci sono"@,
        "quanti gradi"@, "gradi ci sono"@, "gradi fa"@, "fa freddo"@, "fa caldo"@, "c'è il sole"@,
        "pioverà"@, "piovera"@, "pioggia"@, "piove"@, "ho bisogno del"@, "ho bisogno di"@,
        "mi serve il"@, "mi serve"@, "dimmi"@, "qual è"@, "qual e"@, "com'è"@, "come è"@,
        "che "@, " di "@, " in "@, " su "@, " per "@,
    ]
}

fn weather_noise_exec() -> (r: Vec<Vec<char>>)
    ensures
        r@.map_values(|w: Vec<char>| w@) == weather_noise(),
{
    let r = vec![
        to_chars("che tempo fa"), to_chars("che tempo"), to_chars("tempo fa"),
        to_chars("il meteo"), to_chars("meteo"), to_chars("temperatura"),
        to_chars("previsioni del tempo"), to_chars("previsioni meteo"), to_chars("previsioni"),
        to_chars("quanti gradi ci sono"), to_chars("quanti gradi"), to_chars("gradi ci sono"),
        to_chars("gradi fa"), to_chars("fa freddo"), to_chars("fa caldo"),
        to_chars("c'è il sole"), to_chars("pioverà"), to_chars("piovera"), to_chars("pioggia"),
        to_chars("piove"), to_chars("ho bisogno del"), to_chars("ho bisogno di"),
        to_chars("mi serve il"), to_chars("mi serve"), to_chars("dimmi"), to_chars("qual è"),
        to_chars("qual e"), to_chars("com'è"), to_chars("come è"), to_chars("che "),
        to_chars(" di "), to_chars(" in "), to_chars(" su "), to_chars(" per "),
    ];
    assert(r@.map_values(|w: Vec<char>| w@) =~= weather_noise());
    r
}

/// The city after the last occurrence of `prep` in `req`, when it has at least two characters.
pub open spec fn city_after(req: Seq<char>, prep: Seq<char>) -> Option<Seq<char>> {
    match rfind(req, prep) {
        None => None,
        Some(i) => {
            let c = city_of(req.skip(i + prep.len()));
            if c.len() >= 2 {
                Some(c)
            } else {
                None
            }
        },
    }
}

/// The weather intent of a lowercased request: `None` when it is not about the weather;
/// otherwise the city (what follows the last " a " or " ad "; failing that, what is left once
/// weather words and filler are removed), empty when there is none.
pub open spec fn weather_city(req: Seq<char>) -> Option<Seq<char>> {
    if !any_contains(req, weather_triggers()) {
        None
    } else {
        match city_after(req, " a "@) {
            Some(c) => Some(c),
            None => match city_after(req, " ad "@) {
                Some(c) => Some(c),
                None => {
                    let c = city_of(blank_out(req, weather_noise()));
                    Some(
                        if c.len() < 2 {
                            seq![]
                        } else {
                            c
                        },
                    )
                },
            },
        }
    }
}

fn city_after_exec(req: &Vec<char>, prep: &str) -> (r: Option<String>)
    ensures
        r matches Some(c) ==> city_after(req@, prep@) == Some(c@),
        r is None ==> city_after(req@, prep@) is None,
{
    let p = to_chars(prep);
    match rfind_exec(req, &p) {
        None => None,
        Some(i) => {
            proof {
                lemma_rfind(req@, p@);
                assert(matches_at(req@, p@, i as int));
            }
            assert(i + p.len() <= req.len());
            let rest = slice(req, i + p.len(), req.len());
            assert(rest@ =~= req@.skip(i + p@.len()));
            let rs = from_chars(rest.as_slice());
            let c = clean_city(rs.as_str());
            let cc = to_chars(c.as_str());
            if cc.len() >= 2 {
                Some(c)
            } else {
                None
            }
        },
    }
}

/// Detects a weather request and extracts its place (see [`weather_city`]): `Some("modena")`
/// for a city, `Some("")` for the weather here (the tool then uses the IP location), `None`
/// when it is not a weather request.
pub fn weather_query(req_lower: &str) -> (r: Option<String>)
    ensures
        r matches Some(c) ==> weather_city(req_lower@) == Some(c@),
        r is None ==> weather_city(req_lower@) is None,
{
    let req = to_chars(req_lower);
    if !any_contains_exec(&req, &weather_triggers_exec()) {
        return None;
    }
    match city_after_exec(&req, " a ") {
        Some(c) => return Some(c),
        None => {},
    }
    match city_after_exec(&req, " ad ") {
        Some(c) => return Some(c),
        None => {},
    }
    let q = blank_out_exec(&req, &weather_noise_exec());
    let qs = from_chars(q.as_slice());
    let city = clean_city(qs.as_str());
    let cc = to_chars(city.as_str());
    if cc.len() < 2 {
        let e = String::new();
        assert(e@ =~= Seq::<char>::empty());
        Some(e)
    } else {
        Some(city)
    }
}

// ---------------------------------------------------------------- web search

/// Words of a local intent (mail, calendar, files, notes): such requests are never sent to the
/// web.
pub open spec fn local_words() -> Seq<Seq<char>> {
    seq![
        "email"@, "mail"@, "posta"@, "casella"@, "appuntament"@, "agenda"@, "evento"@,
        "calendario"@, "impegno"@, "scadenz"@, "riunion"@, "file"@, "cartella"@, "document"@,
        "appunt"@, "annota"@, "i miei appunt"@,
    ]
}

fn local_words_exec() -> (r: Vec<Vec<char>>)
    ensures
        r@.map_values(|w: Vec<char>| w@) == local_words(),
{
    let r = vec![
        to_chars("email"), to_chars("mail"), to_chars("posta"), to_chars("casella"),
        to_chars("appuntament"), to_chars("agenda"), to_chars("evento"), to_chars("calendario"),
        to_chars("impegno"), to_chars("scadenz"), to_chars("riunion"), to_chars("file"),
        to_chars("cartella"), to_chars("document"), to_chars("appunt"), to_chars("annota"),
        to_chars("i miei appunt"),
    ];
    assert(r@.map_values(|w: Vec<char>| w@) =~= local_words());
    r
}

pub open spec fn search_triggers() -> Seq<Seq<char>> {
    seq![
        "cerca"@, "notizie"@, "ultime notiz"@, "che succede"@, "cosa è successo"@,
        "cosa e successo"@, "novità"@, "novita"@, "in rete"@, "sul web"@, "su internet"@,
        "online"@, "aggiornament"@, "trova"@,
    ]
}

fn search_triggers_exec() -> (r: Vec<Vec<char>>)
    ensures
        r@.map_values(|w: Vec<char>| w@) == search_triggers(),
{
    let r = vec![
        to_chars("cerca"), to_chars("notizie"), to_chars("ultime notiz"), to_chars("che succede"),
        to_chars("cosa è successo"), to_chars("cosa e successo"), to_chars("novità"),
        to_chars("novita"), to_chars("in rete"), to_chars("sul web"), to_chars("su internet"),
        to_chars("online"), to_chars("aggiornament"), to_chars("trova"),
    ];
    assert(r@.map_values(|w: Vec<char>| w@) =~= search_triggers());
    r
}

/// Search phrasing removed from the request to leave the query.
pub open spec fn search_noise() -> Seq<Seq<char>> {
    seq![
        "cerca in rete"@, "cerca sul web"@, "cerca su internet"@, "cerca online"@,
        "cerca per me"@, "in rete"@, "sul web"@, "su internet"@, "puoi cercare"@, "cercami"@,
        "cerca"@, "trova"@, "dimmi"@,
    ]
}

fn search_noise_exec() -> (r: Vec<Vec<char>>)
    ensures
        r@.map_values(|w: Vec<char>| w@) == search_noise(),
{
    let r = vec![
        to_chars("cerca in rete"), to_chars("cerca sul web"), to_chars("cerca su internet"),
        to_chars("cerca online"), to_chars("cerca per me"), to_chars("in rete"),
        to_chars("sul web"), to_chars("su internet"), to_chars("puoi cercare"),
        to_chars("cercami"), to_chars("cerca"), to_chars("trova"), to_chars("dimmi"),
    ];
    assert(r@.map_values(|w: Vec<char>| w@) =~= search_noise());
    r
}

/// The web-search intent of a lowercased request: `None` for a local intent or when no search
/// word occurs; otherwise the query (search phrasing removed, whitespace collapsed), or the
/// whole trimmed request when fewer than three characters would be left.
pub open spec fn search_intent(req: Seq<char>) -> Option<Seq<char>> {
    if any_contains(req, local_words()) {
        None
    } else if !any_contains(req, search_triggers()) {
        None
    } else {
        let q = collapse_ws(blank_out(req, search_noise()));
        Some(
            if q.len() < 3 {
                trim(req)
            } else {
                q
            },
        )
    }
}

/// Detects a web-search request and returns its query (see [`search_intent`]).
pub fn search_query(req_lower: &str) -> (r: Option<String>)
    ensures
        r matches Some(q) ==> search_intent(req_lower@) == Some(q@),
        r is None ==> search_intent(req_lower@) is None,
{
    let req = to_chars(req_lower);
    if any_contains_exec(&req, &local_words_exec()) {
        return None;
    }
    if !any_contains_exec(&req, &search_triggers_exec()) {
        return None;
    }
    let q = blank_out_exec(&req, &search_noise_exec());
    let q = collapse_ws_exec(&q);
    if q.len() < 3 {
        let t = trim_exec(&req);
        Some(from_chars(t.as_slice()))
    } else {
        Some(from_chars(q.as_slice()))
    }
}

} // verus!

verus! {

// ---------------------------------------------------------------- URLs

/// Characters kept at the edges of a candidate URL token.
pub open spec fn url_char(c: char) -> bool {
    is_alnum(c) || c == '/' || c == ':' || c == '.' || c == '-' || c == '_' || c == '~' || c == '?'
        || c == '=' || c == '&' || c == '%' || c == '#'
}

/// `s` without leading characters that are not URL characters.
pub open spec fn url_trim_start(s: Seq<char>) -> Seq<char>
    decreases s.len(),
{
    if s.len() > 0 && !url_char(s[0]) {
        url_trim_start(s.drop_first())
    } else {
        s
    }
}

/// `s` without trailing characters that are not URL characters.
pub open spec fn url_trim_end(s: Seq<char>) -> Seq<char>
    decreases s.len(),
{
    if s.len() > 0 && !url_char(s.last()) {
        url_trim_end(s.drop_last())
    } else {
        s
    }
}

/// The pieces of `s` between whitespace characters (`str::split(char::is_whitespace)`,
/// empty pieces included).
pub open spec fn split_ws(s: Seq<char>) -> Seq<Seq<char>>
    decreases s.len(),
{
    match first_ws(s, 0) {
        None => seq![s],
        Some(i) => if 0 <= i < s.len() {
            seq![s.take(i)] + split_ws(s.skip(i + 1))
        } else {
            seq![s]
        },
    }
}

/// Index of the first whitespace character of `s` at or after `i`.
pub open spec fn first_ws(s: Seq<char>, i: int) -> Option<int>
    decreases s.len() - i,
{
    if i < 0 || i >= s.len() {
        None
    } else if is_ws(s[i]) {
        Some(i)
    } else {
        first_ws(s, i + 1)
    }
}

/// The domain endings that make a bare token a web address.
pub open spec fn tlds() -> Seq<Seq<char>> {
    seq![
        ".com"@, ".it"@, ".org"@, ".net"@, ".io"@, ".dev"@, ".ai"@, ".co"@, ".eu"@, ".info"@,
        ".me"@, ".app"@, ".gov"@, ".edu"@, ".tv"@, ".news"@, ".shop"@, ".store"@, ".xyz"@,
        ".cloud"@, ".online"@,
    ]
}

fn tlds_exec() -> (r: Vec<Vec<char>>)
    ensures
        r@.map_values(|w: Vec<char>| w@) == tlds(),
{
    let r = vec![
        to_chars(".com"), to_chars(".it"), to_chars(".org"), to_chars(".net"), to_chars(".io"),
        to_chars(".dev"), to_chars(".ai"), to_chars(".co"), to_chars(".eu"), to_chars(".info"),
        to_chars(".me"), to_chars(".app"), to_chars(".gov"), to_chars(".edu"), to_chars(".tv"),
        to_chars(".news"), to_chars(".shop"), to_chars(".store"), to_chars(".xyz"),
        to_chars(".cloud"), to_chars(".online"),
    ];
    assert(r@.map_values(|w: Vec<char>| w@) =~= tlds());
    r
}

/// The first domain ending of the list (from position `k` of the list on) that occurs in
/// `lower`: the index just past its first occurrence.
pub open spec fn tld_end(lower: Seq<char>, ts: Seq<Seq<char>>) -> Option<int>
    decreases ts.len(),
{
    if ts.len() == 0 {
        None
    } else {
        match find(lower, ts[0]) {
            Some(p) => Some(p + ts[0].len()),
            None => tld_end(lower, ts.drop_first()),
        }
    }
}

/// What one token says about a web address.
pub enum UrlScan {
    /// The token is an address.
    Found(Seq<char>),
    /// The token is not an address.
    Skip,
    /// Reading the token would slice it inside a character.
    Stuck,
}

/// Whether byte offset `n` of `t` falls between characters (or at or past its end).
pub open spec fn byte_boundary(t: Seq<char>, n: int) -> bool {
    n >= utf8_len(t) || exists|k: int| 0 <= k <= t.len() && utf8_len(#[trigger] t.take(k)) == n
}

/// A token is a web address when, once stripped of edge punctuation, it is non-empty, holds no
/// `@`, and either starts with `http://`/`https://`, or its lowercase form holds a domain ending
/// that closes the host (followed by nothing, `/`, `:`, `?` or `#`) with a `.` of the token,
/// not its first character, lying before the end of that domain ending (counted in bytes of
/// the lowercase form).
pub open spec fn url_token(tok: Seq<char>) -> UrlScan {
    let t = url_trim_end(url_trim_start(tok));
    if t.len() == 0 || contains(t, seq!['@']) {
        UrlScan::Skip
    } else if starts_with(t, "http://"@) || starts_with(t, "https://"@) {
        UrlScan::Found(t)
    } else {
        let lower = lowercase(t);
        match tld_end(lower, tlds()) {
            None => UrlScan::Skip,
            Some(e) => {
                let closes = e >= lower.len() || lower[e] == '/' || lower[e] == ':' || lower[e] == '?'
                    || lower[e] == '#';
                if !closes {
                    UrlScan::Skip
                } else {
                    let end = utf8_len(lower.take(e));
                    if !byte_boundary(t, end as int) {
                        UrlScan::Stuck
                    } else {
                        match find(t, seq!['.']) {
                            Some(d) => if d > 0 && utf8_len(t.take(d + 1)) <= end {
                                UrlScan::Found(t)
                            } else {
                                UrlScan::Skip
                            },
                            None => UrlScan::Skip,
                        }
                    }
                }
            },
        }
    }
}

/// The first token that is an address (or gets stuck).
pub open spec fn url_scan(toks: Seq<Seq<char>>) -> UrlScan
    decreases toks.len(),
{
    if toks.len() == 0 {
        UrlScan::Skip
    } else {
        match url_token(toks[0]) {
            UrlScan::Skip => url_scan(toks.drop_first()),
            r => r,
        }
    }
}

/// The first web address or bare domain of the user's text (see [`url_token`]).
pub open spec fn url_in(text: Seq<char>) -> UrlScan {
    url_scan(split_ws(text))
}

} // verus!

verus! {

fn url_char_exec(c: char) -> (r: bool)
    ensures
        r == url_char(c),
{
    char_is_alphanumeric(c) || c == '/' || c == ':' || c == '.' || c == '-' || c == '_' || c
        == '~' || c == '?' || c == '=' || c == '&' || c == '%' || c == '#'
}

/// `tok.trim_matches(|c| !url_char(c))`.
fn url_trim_exec(tok: &Vec<char>) -> (t: Vec<char>)
    ensures
        t@ == url_trim_end(url_trim_start(tok@)),
{
    let mut a: usize = 0;
    assert(tok@.skip(0) =~= tok@);
    while a < tok.len() && !url_char_exec(tok[a])
        invariant
            a <= tok.len(),
            url_trim_start(tok@) == url_trim_start(tok@.skip(a as int)),
        decreases tok.len() - a,
    {
        assert(tok@.skip(a as int).drop_first() =~= tok@.skip(a + 1));
        a = a + 1;
    }
    let s = slice(tok, a, tok.len());
    assert(s@ =~= tok@.skip(a as int));
    let mut b: usize = s.len();
    assert(s@.take(s.len() as int) =~= s@);
    while b > 0 && !url_char_exec(s[b - 1])
        invariant
            b <= s.len(),
            url_trim_end(s@) == url_trim_end(s@.take(b as int)),
        decreases b,
    {
        assert(s@.take(b as int).drop_last() =~= s@.take(b - 1));
        b = b - 1;
    }
    let t = slice(&s, 0, b);
    assert(t@ =~= s@.take(b as int));
    t
}

/// Index just past the first occurrence, in `lower`, of the first domain ending that occurs.
fn tld_end_exec(lower: &Vec<char>, ts: &Vec<Vec<char>>) -> (r: Option<usize>)
    ensures
        r matches Some(e) ==> tld_end(lower@, ts@.map_values(|w: Vec<char>| w@)) == Some(e as int)
            && e <= lower.len(),
        r is None ==> tld_end(lower@, ts@.map_values(|w: Vec<char>| w@)) is None,
{
    let ghost tv = ts@.map_values(|w: Vec<char>| w@);
    assert(tv.skip(0) =~= tv);
    let mut k: usize = 0;
    while k < ts.len()
        invariant
            k <= ts.len(),
            tv == ts@.map_values(|w: Vec<char>| w@),
            tld_end(lower@, tv) == tld_end(lower@, tv.skip(k as int)),
        decreases ts.len() - k,
    {
        assert(tv.skip(k as int)[0] == ts@[k as int]@);
        assert(tv.skip(k as int).drop_first() =~= tv.skip(k + 1));
        match find_exec(lower, &ts[k]) {
            Some(p) => {
                proof {
                    lemma_find(lower@, ts@[k as int]@);
                    assert(matches_at(lower@, ts@[k as int]@, p as int));
                }
                assert(p + ts@[k as int].len() <= lower.len());
                return Some(p + ts[k].len());
            },
            None => {},
        }
        k = k + 1;
    }
    assert(tv.skip(ts.len() as int) =~= Seq::<Seq<char>>::empty());
    None
}

/// Prefix lengths in bytes grow strictly with the number of characters.
proof fn lemma_utf8_prefix_step(t: Seq<char>, k: int)
    requires
        0 <= k < t.len(),
    ensures
        utf8_len(t.take(k + 1)) == utf8_len(t.take(k)) + char_width(t[k]),
        char_width(t[k]) >= 1,
{
    assert(t.take(k + 1) =~= t.take(k) + seq![t[k]]);
    lemma_utf8_len_concat(t.take(k), seq![t[k]]);
    lemma_utf8_len_single(t[k]);
}

proof fn lemma_utf8_prefix_mono(t: Seq<char>, a: int, b: int)
    requires
        0 <= a <= b <= t.len(),
    ensures
        utf8_len(t.take(a)) + (b - a) <= utf8_len(t.take(b)),
    decreases b - a,
{
    if a < b {
        lemma_utf8_prefix_mono(t, a, b - 1);
        lemma_utf8_prefix_step(t, b - 1);
    }
}

proof fn lemma_utf8_prefix_le(t: Seq<char>, k: int)
    requires
        0 <= k <= t.len(),
    ensures
        utf8_len(t.take(k)) <= utf8_len(t),
{
    lemma_utf8_prefix_mono(t, k, t.len() as int);
    assert(t.take(t.len() as int) =~= t);
}

/// Whether byte offset `end` of `t` falls between characters; `end` is exact when below
/// `u64::MAX`, and `t` is shorter than that in bytes.
fn byte_boundary_exec(t: &Vec<char>, end: u64, Ghost(e): Ghost<int>) -> (r: bool)
    requires
        utf8_len(t@) < u64::MAX,
        end == if e < u64::MAX { e } else { u64::MAX as int },
        e >= 0,
    ensures
        r == byte_boundary(t@, e),
{
    let lt = utf8_len_capped(t, u64::MAX);
    if end >= lt {
        return true;
    }
    // here `e == end < utf8_len(t)`: walk to the first character boundary at or past `end`
    let mut acc: u64 = 0;
    let mut k: usize = 0;
    assert(t@.take(0) =~= Seq::<char>::empty());
    while acc < end
        invariant
            k <= t.len(),
            acc == utf8_len(t@.take(k as int)),
            end < utf8_len(t@),
            utf8_len(t@) < u64::MAX,
            e == end,
            k > 0 ==> utf8_len(t@.take(k - 1)) < end,
        decreases t.len() - k,
    {
        if k == t.len() {
            assert(t@.take(k as int) =~= t@);
            assert(false);
        }
        proof {
            lemma_utf8_prefix_step(t@, k as int);
            lemma_utf8_prefix_le(t@, k + 1);
        }
        let u = t[k] as u32;
        let w: u64 = if u < 0x80 {
            1
        } else if u < 0x800 {
            2
        } else if u < 0x10000 {
            3
        } else {
            4
        };
        assert(w == char_width(t@[k as int]));
        acc = acc + w;
        k = k + 1;
    }
    proof {
        if acc != end {
            // no prefix ends exactly at `end`
            assert forall|j: int| 0 <= j <= t.len() implies utf8_len(#[trigger] t@.take(j)) != e by {
                if j < k {
                    lemma_utf8_prefix_mono(t@, j, k - 1);
                } else {
                    lemma_utf8_prefix_mono(t@, k as int, j);
                }
            }
        } else {
            assert(utf8_len(t@.take(k as int)) == e);
        }
    }
    acc == end
}

/// What one token says about a web address, computed (`Stuck` cannot happen on the inputs
/// that `extract_url` accepts).
fn url_token_exec(tok: &Vec<char>) -> (r: Result<Option<Vec<char>>, ()>)
    requires
        utf8_len(tok@) < u64::MAX,
    ensures
        r matches Ok(Some(t)) ==> url_token(tok@) == UrlScan::Found(t@),
        r matches Ok(None) ==> url_token(tok@) == UrlScan::Skip,
        r is Err ==> url_token(tok@) == UrlScan::Stuck,
{
    let t = url_trim_exec(tok);
    proof {
        lemma_url_trim_len(tok@);
    }
    let at = vec!['@'];
    assert(at@ =~= seq!['@']);
    if t.len() == 0 || contains_exec(&t, &at) {
        return Ok(None);
    }
    if starts_with_exec(&t, &to_chars("http://")) || starts_with_exec(&t, &to_chars("https://")) {
        return Ok(Some(t));
    }
    let ts = from_chars(t.as_slice());
    let lower_s = str_to_lowercase(ts.as_str());
    let lower = to_chars(lower_s.as_str());
    let e = match tld_end_exec(&lower, &tlds_exec()) {
        None => return Ok(None),
        Some(e) => e,
    };
    let closes = e >= lower.len() || lower[e] == '/' || lower[e] == ':' || lower[e] == '?'
        || lower[e] == '#';
    if !closes {
        return Ok(None);
    }
    let head = slice(&lower, 0, e);
    assert(head@ =~= lower@.take(e as int));
    let end = utf8_len_capped(&head, u64::MAX);
    if !byte_boundary_exec(&t, end, Ghost(utf8_len(lower@.take(e as int)) as int)) {
        return Err(());
    }
    let dot = vec!['.'];
    assert(dot@ =~= seq!['.']);
    match find_exec(&t, &dot) {
        Some(d) => {
            proof {
                lemma_find(t@, dot@);
                assert(matches_at(t@, dot@, d as int));
            }
            assert(d < t.len());
            if d == 0 {
                return Ok(None);
            }
            let upto = slice(&t, 0, d + 1);
            assert(upto@ =~= t@.take(d + 1));
            proof {
                lemma_utf8_prefix_le(t@, d + 1);
            }
            let ld = utf8_len_capped(&upto, u64::MAX);
            if ld <= end {
                Ok(Some(t))
            } else {
                Ok(None)
            }
        },
        None => Ok(None),
    }
}

proof fn lemma_url_trim_len(tok: Seq<char>)
    ensures
        utf8_len(url_trim_end(url_trim_start(tok))) <= utf8_len(tok),
{
    lemma_url_trim_start_len(tok);
    lemma_url_trim_end_len(url_trim_start(tok));
}

proof fn lemma_url_trim_start_len(s: Seq<char>)
    ensures
        utf8_len(url_trim_start(s)) <= utf8_len(s),
    decreases s.len(),
{
    if s.len() > 0 && !url_char(s[0]) {
        lemma_url_trim_start_len(s.drop_first());
    }
}

proof fn lemma_url_trim_end_len(s: Seq<char>)
    ensures
        utf8_len(url_trim_end(s)) <= utf8_len(s),
    decreases s.len(),
{
    if s.len() > 0 && !url_char(s.last()) {
        lemma_url_trim_end_len(s.drop_last());
        lemma_utf8_len_concat(s.drop_last(), seq![s.last()]);
        assert(s.drop_last() + seq![s.last()] =~= s);
    }
}

/// Index of the first whitespace character at or after `from`.
fn first_ws_exec(v: &Vec<char>, from: usize) -> (r: Option<usize>)
    requires
        from <= v.len(),
    ensures
        r matches Some(i) ==> from <= i < v.len() && first_ws(v@.skip(from as int), 0) == Some(
            i - from,
        ),
        r is None ==> first_ws(v@.skip(from as int), 0) is None,
{
    let ghost r0 = v@.skip(from as int);
    let mut j = from;
    while j < v.len()
        invariant
            from <= j <= v.len(),
            r0 == v@.skip(from as int),
            first_ws(r0, 0) == first_ws(r0, j - from),
        decreases v.len() - j,
    {
        assert(r0[j - from] == v@[j as int]);
        if is_ws_exec(v[j]) {
            return Some(j);
        }
        j = j + 1;
    }
    None
}

/// What the search for a web address in the user's text finds.
pub enum UrlFound {
    /// This address.
    Address(String),
    /// Nothing clearly navigable.
    Nothing,
    /// A token whose domain ending would be cut inside a character (its lowercase form has
    /// other byte lengths than the token itself).
    CutInsideChar,
}

/// Scans the user's text for a web address (see [`url_in`]), reporting the token that would be
/// cut inside a character instead of reading past it.
pub fn scan_url(text: &str) -> (r: UrlFound)
    requires
        utf8_len(text@) < u64::MAX,
    ensures
        r matches UrlFound::Address(u) ==> url_in(text@) == UrlScan::Found(u@),
        r is Nothing ==> url_in(text@) == UrlScan::Skip,
        r is CutInsideChar ==> url_in(text@) is Stuck,
{
    let v = to_chars(text);
    let mut st: usize = 0;
    assert(v@.skip(0) =~= v@);
    loop
        invariant
            st <= v.len(),
            url_in(v@) == url_scan(split_ws(v@.skip(st as int))),
            utf8_len(v@.skip(st as int)) < u64::MAX,
            v@ == text@,
        decreases v.len() - st,
    {
        let ghost rest = v@.skip(st as int);
        let next = first_ws_exec(&v, st);
        let end = match next {
            Some(i) => i,
            None => v.len(),
        };
        let tok = slice(&v, st, end);
        proof {
            assert(rest.take(end - st) =~= tok@);
            lemma_utf8_prefix_le(rest, end - st);
            match next {
                Some(i) => {
                    assert(rest.skip(i - st + 1) =~= v@.skip(i + 1));
                    assert(split_ws(rest) == seq![tok@] + split_ws(v@.skip(i + 1)));
                    assert(rest =~= rest.take(i - st + 1) + v@.skip(i + 1));
                    lemma_utf8_len_concat(rest.take(i - st + 1), v@.skip(i + 1));
                },
                None => {
                    assert(rest.take(rest.len() as int) =~= rest);
                    assert(split_ws(rest) == seq![rest]);
                },
            }
            assert((seq![tok@] + split_ws(v@.skip(end + 1))).drop_first() =~= split_ws(v@.skip(end + 1)));
        }
        match url_token_exec(&tok) {
            Ok(Some(t)) => return UrlFound::Address(from_chars(t.as_slice())),
            Err(()) => return UrlFound::CutInsideChar,
            Ok(None) => {},
        }
        match next {
            None => {
                assert(seq![tok@].drop_first() =~= Seq::<Seq<char>>::empty());
                assert(url_scan(Seq::<Seq<char>>::empty()) == UrlScan::Skip);
                return UrlFound::Nothing;
            },
            Some(i) => {
                st = i + 1;
            },
        }
    }
}

/// Extracts the first web address (`http(s)://…`) or bare domain with a known ending
/// (`esempio.com`) from the user's text, for forcing `web_fetch`; `None` when nothing is
/// clearly navigable (an e-mail address, or a file like `note.io.txt`, is not), and also
/// when the scan reaches a token whose domain ending would be cut inside a character (see
/// [`scan_url`], which tells that case apart).  The text's byte length is below `u64::MAX`.
pub fn extract_url(text: &str) -> (r: Option<String>)
    requires
        utf8_len(text@) < u64::MAX,
    ensures
        r matches Some(u) ==> url_in(text@) == UrlScan::Found(u@),
        r is None ==> (url_in(text@) == UrlScan::Skip || url_in(text@) is Stuck),
{
    match scan_url(text) {
        UrlFound::Address(u) => Some(u),
        _ => None,
    }
}

} // verus!
