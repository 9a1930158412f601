//! Looking at an attached image, in two stages: the model first describes the image, then the
//! description enters the ordinary tool loop as context.  Here: reading the attachment, the
//! prompt of the description, its context size, and the message the loop receives.  The image
//! encoder and the generation are the application's part.
use vstd::prelude::*;
use crate::chars::{
    to_chars, from_chars, append_str, append_chars, trim, trim_exec, rfind, rfind_exec, lemma_rfind,
    matches_at, slice, contains, contains_exec,
};
use crate::crypto::{base64_decoded, b64_decode};
use crate::lower::{lowercase, str_to_lowercase};

verus! {

/// The answer when the active model has no vision.
pub const NO_VISION: &'static str = "Questo modello non vede le immagini. Per foto e documenti scarica e seleziona un modello Gemma 4 (💎 E4B o 💠 12B), che ha la visione nativa.";

/// What the model is asked to describe of an image.
pub const LOOK_QUESTION: &'static str = "Descrivi in dettaglio cosa mostra l'immagine: oggetti, persone, testo leggibile, contesto.";

/// The vision context never exceeds this many tokens (an image and its description fit).
pub const VISION_CTX_CAP: u32 = 1024;

/// The context of the image description: the model's context, at most [`VISION_CTX_CAP`].
pub fn vision_ctx(n_ctx: u32) -> (r: u32)
    ensures
        r == if n_ctx < VISION_CTX_CAP {
            n_ctx
        } else {
            VISION_CTX_CAP
        },
{
    if n_ctx < VISION_CTX_CAP {
        n_ctx
    } else {
        VISION_CTX_CAP
    }
}

/// The base64 payload of an attachment: what follows the last comma (a data URL's header is
/// dropped), or all of it.
pub open spec fn payload_of(data: Seq<char>) -> Seq<char> {
    match rfind(data, seq![',']) {
        Some(i) => data.skip(i + 1),
        None => data,
    }
}

/// The bytes of an attachment (see [`payload_of`]), or an error made of `error_prefix` and the
/// decoder's message when the payload is not base64.
pub fn decode_attachment(data: &str, error_prefix: &str) -> (r: Result<Vec<u8>, String>)
    ensures
        r matches Ok(b) ==> base64_decoded(payload_of(data@)) == Some(b@),
        r is Err ==> base64_decoded(payload_of(data@)) is None,
        r matches Err(e) ==> error_prefix@.is_prefix_of(e@),
{
    let v = to_chars(data);
    let comma = vec![','];
    assert(comma@ =~= seq![',']);
    let payload = match rfind_exec(&v, &comma) {
        Some(i) => {
            proof {
                lemma_rfind(v@, comma@);
                assert(matches_at(v@, comma@, i as int));
            }
            assert(i < v.len());
            let p = slice(&v, i + 1, v.len());
            assert(p@ =~= v@.skip(i + 1));
            p
        },
        None => v,
    };
    let text = from_chars(payload.as_slice());
    match b64_decode(text.as_str()) {
        Ok(b) => Ok(b),
        Err(e) => {
            let mut m = to_chars(error_prefix);
            let ghost head = m@;
            append_str(&mut m, e.as_str());
            assert(m@.take(head.len() as int) =~= head);
            Err(from_chars(m.as_slice()))
        },
    }
}

/// The image bytes of an attachment, or the error `immagine non valida:` with the decoder's
/// message (see [`decode_attachment`]).
pub fn decode_image(data: &str) -> (r: Result<Vec<u8>, String>)
    ensures
        r matches Ok(b) ==> base64_decoded(payload_of(data@)) == Some(b@),
        r is Err ==> base64_decoded(payload_of(data@)) is None,
        r matches Err(e) ==> "immagine non valida: "@.is_prefix_of(e@),
{
    decode_attachment(data, "immagine non valida: ")
}

/// The question about the image: the user's, trimmed, or a default one.
pub open spec fn image_question(prompt: Seq<char>) -> Seq<char> {
    if trim(prompt).len() == 0 {
        "Cosa c'è nell'immagine?"@
    } else {
        trim(prompt)
    }
}

/// The message the tool loop receives: what the vision saw, then the question.
pub open spec fn vision_message_text(description: Seq<char>, prompt: Seq<char>) -> Seq<char> {
    "[Ho allegato un'immagine. Contenuto rilevato dalla vista: "@ + description + "]\n\n"@
        + image_question(prompt)
}

/// Builds the user's message for the tool loop (see [`vision_message_text`]).
pub fn vision_message(description: &str, prompt: &str) -> (r: String)
    ensures
        r@ == vision_message_text(description@, prompt@),
{
    let mut v = to_chars("[Ho allegato un'immagine. Contenuto rilevato dalla vista: ");
    append_str(&mut v, description);
    append_str(&mut v, "]\n\n");
    let t = trim_exec(&to_chars(prompt));
    if t.len() == 0 {
        append_str(&mut v, "Cosa c'è nell'immagine?");
    } else {
        append_chars(&mut v, &t);
    }
    let r = from_chars(v.as_slice());
    assert(r@ =~= vision_message_text(description@, prompt@));
    r
}

/// The description prompt of the vision model: Gemma's native turn format or ChatML, with the
/// image marker before the question (a default question when the prompt is blank).
pub open spec fn describe_text(model_id: Seq<char>, marker: Seq<char>, prompt: Seq<char>) -> Seq<char> {
    let q = if trim(prompt).len() == 0 {
        "Descrivi dettagliatamente questa immagine."@
    } else {
        prompt
    };
    if contains(lowercase(model_id), "gemma"@) {
        "<bos><start_of_turn>user\n"@ + marker + q + "<end_of_turn>\n<start_of_turn>model\n"@
    } else {
        "<|im_start|>system\nSei Liara, un'assistente attenta. Rispondi in italiano.<|im_end|>\n<|im_start|>user\n"@
            + marker + q + "<|im_end|>\n<|im_start|>assistant\n"@
    }
}

/// Builds the description prompt (see [`describe_text`]).
pub fn describe_prompt(model_id: &str, marker: &str, prompt: &str) -> (r: String)
    ensures
        r@ == describe_text(model_id@, marker@, prompt@),
{
    let gemma = contains_exec(&to_chars(str_to_lowercase(model_id).as_str()), &to_chars("gemma"));
    let mut v = if gemma {
        to_chars("<bos><start_of_turn>user\n")
    } else {
        to_chars(
            "<|im_start|>system\nSei Liara, un'assistente attenta. Rispondi in italiano.<|im_end|>\n<|im_start|>user\n",
        )
    };
    append_str(&mut v, marker);
    if trim_exec(&to_chars(prompt)).len() == 0 {
        append_str(&mut v, "Descrivi dettagliatamente questa immagine.");
    } else {
        append_str(&mut v, prompt);
    }
    if gemma {
        append_str(&mut v, "<end_of_turn>\n<start_of_turn>model\n");
    } else {
        append_str(&mut v, "<|im_end|>\n<|im_start|>assistant\n");
    }
    let r = from_chars(v.as_slice());
    assert(r@ =~= describe_text(model_id@, marker@, prompt@));
    r
}

} // verus!
