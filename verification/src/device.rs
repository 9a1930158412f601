//! How the local model is placed on the device: which GPUs choke on full offload, how much
//! memory is free, how many layers go to the GPU, which model crashed the GPU before (and now
//! runs on the CPU), which model file is active and which vision projector goes with it.  The
//! system properties, `/proc/meminfo` and the files are read by the application.
use vstd::prelude::*;
use crate::chars::{
    to_chars, from_chars, append_str, append_chars, trim, trim_exec, starts_with, starts_with_exec,
    contains, contains_exec, chars_eq, ends_with, ends_with_exec, words, words_exec,
};
use crate::lower::{lowercase, str_to_lowercase};
use crate::num::{parse_unsigned, parse_u64_exec, parse_u32_exec};
use crate::turn::{lines_of, lemma_lines_of_len};

verus! {

/// GPUs that saturate under full offload and freeze the interface: MediaTek (Mali) and the weak
/// Snapdragon 6xx/7xx boards, by their platform name (trimmed, any case).
pub open spec fn weak_platform(raw: Seq<char>) -> bool {
    let p = lowercase(trim(raw));
    starts_with(p, "mt"@) || contains(p, "mediatek"@) || p == "lito"@ || p == "trinket"@ || p
        == "bengal"@ || p == "holi"@
}

/// Whether the board's GPU needs a partial offload (see [`weak_platform`]).
pub fn weak_gpu(platform: &str) -> (r: bool)
    ensures
        r == weak_platform(platform@),
{
    let t = from_chars(trim_exec(&to_chars(platform)).as_slice());
    let p = to_chars(str_to_lowercase(t.as_str()).as_str());
    starts_with_exec(&p, &to_chars("mt")) || contains_exec(&p, &to_chars("mediatek")) || chars_eq(
        &p,
        &to_chars("lito"),
    ) || chars_eq(&p, &to_chars("trinket")) || chars_eq(&p, &to_chars("bengal")) || chars_eq(
        &p,
        &to_chars("holi"),
    )
}

/// The first line starting with `prefix`, if any.
pub open spec fn first_line_with(ls: Seq<Seq<char>>, prefix: Seq<char>) -> Option<Seq<char>>
    decreases ls.len(),
{
    if ls.len() == 0 {
        None
    } else if starts_with(ls[0], prefix) {
        Some(ls[0])
    } else {
        first_line_with(ls.drop_first(), prefix)
    }
}

/// A value of `/proc/meminfo`: on the first line starting with `prefix`, the second
/// whitespace-separated field, read as a number (kB).
pub open spec fn meminfo_field(text: Seq<char>, prefix: Seq<char>) -> Option<int> {
    match first_line_with(lines_of(text), prefix) {
        Some(l) => if words(l).len() >= 2 {
            parse_unsigned(words(l)[1], u64::MAX as int)
        } else {
            None
        },
        None => None,
    }
}

/// The first of the lines starting with `prefix`, as an index.
fn first_line_exec(ls: &Vec<Vec<char>>, prefix: &Vec<char>) -> (r: Option<usize>)
    ensures
        r matches Some(k) ==> k < ls.len() && first_line_with(ls@.map_values(|w: Vec<char>| w@), prefix@)
            == Some(ls@[k as int]@),
        r is None ==> first_line_with(ls@.map_values(|w: Vec<char>| w@), prefix@) is None,
{
    let ghost lv = ls@.map_values(|w: Vec<char>| w@);
    let mut k: usize = 0;
    assert(lv.skip(0) =~= lv);
    while k < ls.len()
        invariant
            k <= ls.len(),
            lv == ls@.map_values(|w: Vec<char>| w@),
            first_line_with(lv, prefix@) == first_line_with(lv.skip(k as int), prefix@),
        decreases ls.len() - k,
    {
        assert(lv.skip(k as int)[0] == ls@[k as int]@);
        assert(lv.skip(k as int).drop_first() =~= lv.skip(k + 1));
        if starts_with_exec(&ls[k], prefix) {
            return Some(k);
        }
        k = k + 1;
    }
    None
}

/// Reads a field of `/proc/meminfo` (see [`meminfo_field`]), such as `MemAvailable:`.
pub fn meminfo_kb(text: &str, prefix: &str) -> (r: Option<u64>)
    ensures
        r matches Some(n) ==> meminfo_field(text@, prefix@) == Some(n as int),
        r is None ==> meminfo_field(text@, prefix@) is None,
{
    let v = to_chars(text);
    let p = to_chars(prefix);
    let ls = crate::turn::lines_exec(&v);
    match first_line_exec(&ls, &p) {
        None => None,
        Some(k) => {
            let ws = words_exec(&ls[k]);
            if ws.len() >= 2 {
                parse_u64_exec(&ws[1])
            } else {
                None
            }
        },
    }
}

/// The device's memory in GB, rounded to the nearest (from `MemTotal` in kB).
pub fn ram_gb(kb: u64) -> (r: u64)
    ensures
        r == (kb + 524288) / 1048576,
{
    ((kb as u128 + 524288) / 1048576) as u64
}

/// How many layers of the model go to the GPU.
pub enum LayerPlan {
    /// This many.
    Layers(u32),
    /// The model does not fit in free memory: a conservative share of it, estimated from the
    /// free memory and the model's size, between 1 and this many.
    Partial(u32),
}

/// The offload: an explicit override wins; a model that crashed the GPU (or is known to) runs on
/// the CPU; otherwise everything (at most 12 layers on weak GPUs) when the model plus about 1 GB
/// of working memory fits in the free memory (or its size is unknown), else a partial offload.
pub fn offload_plan(override_layers: Option<u32>, cpu_only: bool, weak: bool, model_bytes: u64, available: u64) -> (r: LayerPlan)
    ensures
        override_layers matches Some(n) ==> r == LayerPlan::Layers(n),
        override_layers is None && cpu_only ==> r == LayerPlan::Layers(0),
        override_layers is None && !cpu_only ==> ({
            let full: u32 = if weak {
                12
            } else {
                999
            };
            if model_bytes == 0 || model_bytes + 1000000000 <= available {
                r == LayerPlan::Layers(full)
            } else {
                r == LayerPlan::Partial(full)
            }
        }),
{
    match override_layers {
        Some(n) => return LayerPlan::Layers(n),
        None => {},
    }
    if cpu_only {
        return LayerPlan::Layers(0);
    }
    let full: u32 = if weak {
        12
    } else {
        999
    };
    if model_bytes == 0 || model_bytes as u128 + 1000000000 <= available as u128 {
        LayerPlan::Layers(full)
    } else {
        LayerPlan::Partial(full)
    }
}

/// A partial offload's estimate kept between 1 and the full count.
pub fn clamp_layers(estimate: u32, full: u32) -> (r: u32)
    ensures
        r == if estimate < full {
            if estimate < 1 {
                1
            } else {
                estimate
            }
        } else if full < 1 {
            1
        } else {
            full
        },
{
    let m = if estimate < full {
        estimate
    } else {
        full
    };
    if m < 1 {
        1
    } else {
        m
    }
}

/// The context size: an explicit override (a number), else the platform's default.
pub fn context_size(override_text: Option<&str>, default: u32) -> (r: u32)
    ensures
        r == match override_text {
            Some(t) => match parse_unsigned(t@, u32::MAX as int) {
                Some(n) => n as u32,
                None => default,
            },
            None => default,
        },
{
    match override_text {
        Some(t) => match parse_u32_exec(&to_chars(t)) {
            Some(n) => n,
            None => default,
        },
        None => default,
    }
}

/// The model runs on the CPU when it is in the fallback list, or when it is the 1.7B model,
/// which is unstable on the mobile GPU.
pub fn runs_on_cpu(in_fallback: bool, model_path: &str) -> (r: bool)
    ensures
        r == (in_fallback || contains(lowercase(model_path@), "1.7b"@)),
{
    in_fallback || contains_exec(&to_chars(str_to_lowercase(model_path).as_str()), &to_chars("1.7b"))
}

/// Whether one of the lines of `list`, trimmed, is the model (trimmed).
pub open spec fn listed(ls: Seq<Seq<char>>, model: Seq<char>) -> bool {
    exists|k: int| 0 <= k < ls.len() && trim(#[trigger] ls[k]) == trim(model)
}

/// Whether the model is in the GPU fallback list (one model per line).
pub fn in_fallback(list: &str, model: &str) -> (r: bool)
    ensures
        r == listed(lines_of(list@), model@),
{
    let ls = crate::turn::lines_exec(&to_chars(list));
    let ghost lv = ls@.map_values(|w: Vec<char>| w@);
    let m = trim_exec(&to_chars(model));
    let mut k: usize = 0;
    while k < ls.len()
        invariant
            k <= ls.len(),
            lv == ls@.map_values(|w: Vec<char>| w@),
            lv == lines_of(list@),
            m@ == trim(model@),
            forall|j: int| 0 <= j < k ==> trim(#[trigger] lv[j]) != trim(model@),
        decreases ls.len() - k,
    {
        if chars_eq(&trim_exec(&ls[k]), &m) {
            assert(trim(lv[k as int]) == trim(model@));
            return true;
        }
        k = k + 1;
    }
    false
}

/// After a crash: the model a pending marker names (trimmed, when not empty) joins the fallback
/// list, one per line, unless it is already there.  `None` when the list stays as it is.
pub open spec fn fallback_after(pending: Seq<char>, list: Seq<char>) -> Option<Seq<char>> {
    let m = trim(pending);
    if m.len() > 0 && !listed(lines_of(list), m) {
        Some(list + m + "\n"@)
    } else {
        None
    }
}

/// The fallback list after a GPU crash left its marker (see [`fallback_after`]).
pub fn absorb_crash(pending: &str, list: &str) -> (r: Option<String>)
    ensures
        r matches Some(s) ==> fallback_after(pending@, list@) == Some(s@),
        r is None ==> fallback_after(pending@, list@) is None,
{
    let m = trim_exec(&to_chars(pending));
    if m.len() == 0 {
        return None;
    }
    let ms = from_chars(m.as_slice());
    proof {
        assert(trim(ms@) == trim(trim(pending@))) by {
            crate::chars::lemma_trim_idempotent(pending@);
        }
    }
    if in_fallback(list, ms.as_str()) {
        return None;
    }
    let mut v = to_chars(list);
    append_chars(&mut v, &m);
    append_str(&mut v, "\n");
    Some(from_chars(v.as_slice()))
}

/// The model file used when the user chose none: the first (by name) `.gguf` file present that
/// is not a vision projector.
pub open spec fn is_text_model(name: Seq<char>) -> bool {
    ends_with(name, ".gguf"@) && !contains(name, "mmproj"@)
}

/// Whether `a` sorts before `b` (character by character; for UTF-8 text this is the byte order
/// `String`'s `Ord` uses).
pub open spec fn sorts_before(a: Seq<char>, b: Seq<char>) -> bool
    decreases a.len(),
{
    if a.len() == 0 {
        b.len() > 0
    } else if b.len() == 0 {
        false
    } else if a[0] != b[0] {
        (a[0] as u32) < (b[0] as u32)
    } else {
        sorts_before(a.drop_first(), b.drop_first())
    }
}

/// The model chosen in the selector: the `active_model` file's content, trimmed, when not
/// empty (the caller then checks the file is there).
pub fn active_name(text: &str) -> (r: Option<String>)
    ensures
        r matches Some(n) ==> n@ == trim(text@) && n@.len() > 0,
        r is None <==> trim(text@).len() == 0,
{
    let t = trim_exec(&to_chars(text));
    if t.len() == 0 {
        None
    } else {
        Some(from_chars(t.as_slice()))
    }
}

/// The name used when no model file is present at all.
pub const FALLBACK_MODEL_FILE: &'static str = "liara-1.7b-it.gguf";

/// The first text model among the names: one no other text model sorts before.
pub open spec fn first_text_model(names: Seq<Seq<char>>) -> Option<Seq<char>> {
    if exists|k: int| 0 <= k < names.len() && is_text_model(#[trigger] names[k]) {
        Some(
            choose|m: Seq<char>|
                names.contains(m) && is_text_model(m) && forall|k: int|
                    0 <= k < names.len() && is_text_model(#[trigger] names[k]) ==> !sorts_before(names[k], m),
        )
    } else {
        None
    }
}

proof fn lemma_sorts_before_irreflexive(a: Seq<char>)
    ensures
        !sorts_before(a, a),
    decreases a.len(),
{
    if a.len() > 0 {
        lemma_sorts_before_irreflexive(a.drop_first());
    }
}

proof fn lemma_sorts_before_total(a: Seq<char>, b: Seq<char>)
    ensures
        a == b || sorts_before(a, b) || sorts_before(b, a),
    decreases a.len(),
{
    if a.len() > 0 && b.len() > 0 && a[0] == b[0] {
        lemma_sorts_before_total(a.drop_first(), b.drop_first());
        if a.drop_first() == b.drop_first() {
            assert(a =~= seq![a[0]] + a.drop_first());
            assert(b =~= seq![b[0]] + b.drop_first());
        }
    } else if a.len() == 0 && b.len() == 0 {
        assert(a =~= b);
    } else if a.len() > 0 && b.len() > 0 {
        assert((a[0] as u32) != (b[0] as u32)) by {
            vstd::utf8::char_u32_cast(a[0], a[0] as u32);
            vstd::utf8::char_u32_cast(b[0], b[0] as u32);
        }
    }
}

proof fn lemma_sorts_before_transitive(a: Seq<char>, b: Seq<char>, c: Seq<char>)
    requires
        sorts_before(a, b),
        sorts_before(b, c),
    ensures
        sorts_before(a, c),
    decreases a.len(),
{
    if a.len() > 0 && b.len() > 0 && c.len() > 0 && a[0] == b[0] && b[0] == c[0] {
        lemma_sorts_before_transitive(a.drop_first(), b.drop_first(), c.drop_first());
    }
}

fn sorts_before_exec(a: &Vec<char>, b: &Vec<char>) -> (r: bool)
    ensures
        r == sorts_before(a@, b@),
{
    let mut i: usize = 0;
    assert(a@.skip(0) =~= a@);
    assert(b@.skip(0) =~= b@);
    while i < a.len() && i < b.len() && a[i] == b[i]
        invariant
            i <= a.len(),
            i <= b.len(),
            sorts_before(a@, b@) == sorts_before(a@.skip(i as int), b@.skip(i as int)),
        decreases a.len() - i,
    {
        assert(a@.skip(i as int).drop_first() =~= a@.skip(i + 1));
        assert(b@.skip(i as int).drop_first() =~= b@.skip(i + 1));
        i = i + 1;
    }
    if i == a.len() {
        i < b.len()
    } else if i == b.len() {
        false
    } else {
        (a[i] as u32) < (b[i] as u32)
    }
}

/// The model loaded when the selector names none that is present: the first text model by
/// name, or [`FALLBACK_MODEL_FILE`] when there is none.
pub fn default_model_file(names: &Vec<String>) -> (r: String)
    ensures
        first_text_model(names@.map_values(|s: String| s@)) matches Some(m) ==> r@ == m,
        first_text_model(names@.map_values(|s: String| s@)) is None ==> r@ == FALLBACK_MODEL_FILE@,
{
    let ghost nv = names@.map_values(|s: String| s@);
    let mut best: Option<Vec<char>> = None;
    let mut k: usize = 0;
    while k < names.len()
        invariant
            k <= names.len(),
            nv == names@.map_values(|s: String| s@),
            best is None ==> forall|j: int| 0 <= j < k ==> !is_text_model(#[trigger] nv[j]),
            best matches Some(b) ==> nv.contains(b@) && is_text_model(b@) && forall|j: int|
                0 <= j < k && is_text_model(#[trigger] nv[j]) ==> !sorts_before(nv[j], b@),
        decreases names.len() - k,
    {
        let n = to_chars(names[k].as_str());
        assert(nv[k as int] == n@);
        let text_model = ends_with_exec(&n, &to_chars(".gguf")) && !contains_exec(&n, &to_chars("mmproj"));
        if text_model {
            let better = match &best {
                None => true,
                Some(b) => sorts_before_exec(&n, b),
            };
            if better {
                proof {
                    assert forall|j: int| 0 <= j < k + 1 && is_text_model(#[trigger] nv[j]) implies !sorts_before(nv[j], n@) by {
                        if j == k {
                            lemma_sorts_before_irreflexive(n@);
                        } else {
                            let b = best->0;
                            if sorts_before(nv[j], n@) {
                                lemma_sorts_before_transitive(nv[j], n@, b@);
                            }
                        }
                    }
                }
                best = Some(n);
            } else {
                proof {
                    let b = best->0;
                    lemma_sorts_before_total(n@, b@);
                }
            }
        }
        k = k + 1;
    }
    match best {
        Some(b) => {
            proof {
                let m = b@;
                assert(exists|j: int| 0 <= j < nv.len() && is_text_model(#[trigger] nv[j])) by {
                    let j = choose|j: int| 0 <= j < nv.len() && nv[j] == m;
                    assert(is_text_model(nv[j]));
                }
                let c = first_text_model(nv)->0;
                // the minimum is unique
                assert(nv.contains(c) && is_text_model(c));
                let jc = choose|j: int| 0 <= j < nv.len() && nv[j] == c;
                assert(!sorts_before(nv[jc], m));
                lemma_sorts_before_total(c, m);
                let jm = choose|j: int| 0 <= j < nv.len() && nv[j] == m;
                assert(!sorts_before(nv[jm], c));
            }
            from_chars(b.as_slice())
        },
        None => from_chars(to_chars(FALLBACK_MODEL_FILE).as_slice()),
    }
}

/// The vision projector that goes with a model file: for Gemma, the one of its size (12B or
/// E4B); none for the text-only models.
pub open spec fn projector_for(model_file: Seq<char>) -> Option<Seq<char>> {
    let n = lowercase(model_file);
    if !contains(n, "gemma"@) {
        None
    } else if contains(n, "12b"@) {
        Some("mmproj-gemma-4-12b-f16.gguf"@)
    } else {
        Some("mmproj-gemma-4-e4b-f16.gguf"@)
    }
}

/// The vision projector file of a model (see [`projector_for`]); the caller checks it is there.
pub fn mmproj_for(model_file: &str) -> (r: Option<String>)
    ensures
        r matches Some(p) ==> projector_for(model_file@) == Some(p@),
        r is None ==> projector_for(model_file@) is None,
{
    let n = to_chars(str_to_lowercase(model_file).as_str());
    if !contains_exec(&n, &to_chars("gemma")) {
        None
    } else if contains_exec(&n, &to_chars("12b")) {
        Some(from_chars(to_chars("mmproj-gemma-4-12b-f16.gguf").as_slice()))
    } else {
        Some(from_chars(to_chars("mmproj-gemma-4-e4b-f16.gguf").as_slice()))
    }
}

} // verus!
