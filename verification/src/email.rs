use vstd::prelude::*;

verus! {

use crate::addresses::{extract_addresses, extract_spec};
use crate::form::{FileMeta, FormEntry, FormMap};
use crate::text::{starts_with, starts_with_spec, truncate_spec, truncate_text, TEXT_LIMIT};

/// A failed parse: a required field absent or of the wrong shape, or a
/// malformed attachment manifest.
pub enum ParseError {
    MissingField(String),
    MalformedAttachmentInfo,
}

/// An inbound email, as read out of a multipart form submission.
pub struct Email {
    pub from: String,
    pub to_raw: String,
    pub to: Vec<String>,
    pub subject: String,
    pub text: String,
    pub attachments: Vec<FileMeta>,
}

/// The three ways a parse can end: an email to deliver, a suppressed
/// spam submission (no error, nothing to deliver), or a failure.
pub enum ParseOutcome {
    Parsed(Email),
    Suppressed,
    Failed(ParseError),
}

/// The top-level keys of a JSON object source, in serialized order;
/// nothing when the source is not valid JSON. A valid source that is
/// not an object has no keys. The keys are a function of the source
/// text alone.
pub uninterp spec fn json_object_keys(s: Seq<char>) -> Option<Seq<Seq<char>>>;

/// Relies on `json::parse` and `json::JsonValue::entries`: parsing
/// fails exactly on malformed source, and `entries` walks the top-level
/// keys of an object in their serialized order, yielding nothing for a
/// non-object value.
#[verifier::external_body]
fn parse_attachment_keys(s: &str) -> (r: Option<Vec<String>>)
    ensures
        match r {
            Some(keys) => json_object_keys(s@) == Some(keys@.map_values(|k: String| k@)),
            None => json_object_keys(s@) is None,
        },
{
    match json::parse(s) {
        Ok(value) => Some(value.entries().map(|(k, _)| k.to_string()).collect()),
        Err(_) => None,
    }
}

/// What resolving manifest keys against the form yields: the named file
/// entries in manifest order, or the first key that does not name a
/// file entry of the form.
pub open spec fn attachments_spec(form: FormMap, keys: Seq<Seq<char>>) -> Result<
    Seq<FileMeta>,
    Seq<char>,
>
    decreases keys.len(),
{
    if keys.len() == 0 {
        Ok(Seq::empty())
    } else {
        match form.lookup(keys[0]) {
            Some(FormEntry::File(meta)) => match attachments_spec(form, keys.drop_first()) {
                Ok(rest) => Ok(seq![meta] + rest),
                Err(e) => Err(e),
            },
            _ => Err(keys[0]),
        }
    }
}

/// Resolves the manifest keys against the form, in order; the first key
/// without a matching file entry fails the parse.
pub fn resolve_attachments(form: &FormMap, keys: &Vec<String>) -> (r: Result<
    Vec<FileMeta>,
    ParseError,
>)
    ensures
        match r {
            Ok(metas) => attachments_spec(*form, keys@.map_values(|k: String| k@)) == Ok::<
                Seq<FileMeta>,
                Seq<char>,
            >(metas@),
            Err(e) => e matches ParseError::MissingField(f) && attachments_spec(
                *form,
                keys@.map_values(|k: String| k@),
            ) == Err::<Seq<FileMeta>, Seq<char>>(f@),
        },
{
    let ghost kv = keys@.map_values(|k: String| k@);
    let n = keys.len();
    let mut metas: Vec<FileMeta> = Vec::new();
    let mut i: usize = 0;
    proof {
        assert(kv.skip(0) =~= kv);
        if let Ok(rest) = attachments_spec(*form, kv) {
            assert(Seq::<FileMeta>::empty() + rest =~= rest);
        }
    }
    while i < n
        invariant
            i <= n,
            n == keys@.len(),
            kv == keys@.map_values(|k: String| k@),
            attachments_spec(*form, kv) == (match attachments_spec(*form, kv.skip(i as int)) {
                Ok(rest) => Ok::<Seq<FileMeta>, Seq<char>>(metas@ + rest),
                Err(e) => Err::<Seq<FileMeta>, Seq<char>>(e),
            }),
        decreases n - i,
    {
        proof {
            assert(kv.skip(i as int)[0] == kv[i as int]);
            assert(kv[i as int] == keys@[i as int]@);
            assert(kv.skip(i as int).drop_first() =~= kv.skip(i + 1));
        }
        let entry = form.get(keys[i].as_str());
        match entry {
            Some(FormEntry::File(meta)) => {
                let ghost metas_before = metas@;
                let copy = meta.duplicate();
                metas.push(copy);
                proof {
                    if let Ok(rest) = attachments_spec(*form, kv.skip(i + 1)) {
                        assert(metas_before + (seq![*meta] + rest) =~= metas@ + rest);
                    }
                }
            },
            _ => {
                let missing = keys[i].clone();
                return Err(ParseError::MissingField(missing));
            },
        }
        i += 1;
    }
    proof {
        assert(kv.skip(n as int).len() == 0);
        assert(metas@ + Seq::<FileMeta>::empty() =~= metas@);
    }
    Ok(metas)
}

/// A manifest that names a field without a matching file entry never
/// resolves: the resolution is an error, whatever else the manifest
/// holds.
pub proof fn lemma_manifest_missing_is_error(form: FormMap, keys: Seq<Seq<char>>, i: int)
    requires
        0 <= i < keys.len(),
        !(form.lookup(keys[i]) matches Some(FormEntry::File(_))),
    ensures
        attachments_spec(form, keys) is Err,
    decreases i,
{
    if i > 0 {
        match form.lookup(keys[0]) {
            Some(FormEntry::File(_)) => {
                assert(keys.drop_first()[i - 1] == keys[i]);
                lemma_manifest_missing_is_error(form, keys.drop_first(), i - 1);
            },
            _ => {},
        }
    }
}

/// A subject that carries the spam marker is always suppressed, never
/// an error, provided the required fields are present.
pub proof fn lemma_spam_suppressed(form: FormMap, r: ParseOutcome)
    requires
        required_missing(form) is None,
        subject_suppressed(form),
        parse_outcome_matches(form, r),
    ensures
        r is Suppressed,
{
}

/// The first required field that is absent or not a text field, checked
/// in the fixed order: sender, recipients, subject.
pub open spec fn required_missing(form: FormMap) -> Option<Seq<char>> {
    if form.field_text("from"@) is None {
        Some("from"@)
    } else if form.field_text("to"@) is None {
        Some("to"@)
    } else if form.field_text("subject"@) is None {
        Some("subject"@)
    } else {
        None
    }
}

/// True when the subject carries the spam marker, which suppresses the
/// notification without an error.
pub open spec fn subject_suppressed(form: FormMap) -> bool {
    match form.field_text("subject"@) {
        Some(subject) => starts_with_spec(subject, "[SPAM]"@),
        None => false,
    }
}

/// The body text kept for the notification: the text field, or the
/// placeholder when it is absent or not a text field, truncated to the
/// configured limit.
pub open spec fn email_text_spec(form: FormMap) -> Seq<char> {
    let t = match form.field_text("text"@) {
        Some(t) => t,
        None => "本文を取得できませんでした"@,
    };
    truncate_spec(t, TEXT_LIMIT as int)
}

/// What resolving the whole attachment manifest yields: the file
/// entries in manifest order; `Err(None)` for a malformed manifest;
/// `Err(Some(name))` for a manifest key without a matching file entry.
/// No manifest field means no attachments.
pub open spec fn attachment_result(form: FormMap) -> Result<Seq<FileMeta>, Option<Seq<char>>> {
    match form.field_text("attachment-info"@) {
        None => Ok(Seq::empty()),
        Some(src) => match json_object_keys(src) {
            None => Err(None),
            Some(keys) => match attachments_spec(form, keys) {
                Ok(metas) => Ok(metas),
                Err(name) => Err(Some(name)),
            },
        },
    }
}

/// The fields of a parsed email, each pinned to the form it came from.
pub open spec fn email_matches(form: FormMap, e: Email) -> bool {
    &&& Some(e.from@) == form.field_text("from"@)
    &&& Some(e.to_raw@) == form.field_text("to"@)
    &&& e.to@.map_values(|v: String| v@) == extract_spec(e.to_raw@)
    &&& Some(e.subject@) == form.field_text("subject"@)
    &&& e.text@ == email_text_spec(form)
}

/// The full parse contract: which of the three outcomes comes back, and
/// with what content, for every form.
pub open spec fn parse_outcome_matches(form: FormMap, r: ParseOutcome) -> bool {
    if required_missing(form) is Some {
        &&& r matches ParseOutcome::Failed(ParseError::MissingField(f))
        &&& Some(f@) == required_missing(form)
    } else if subject_suppressed(form) {
        r is Suppressed
    } else {
        match attachment_result(form) {
            Ok(metas) => {
                &&& r matches ParseOutcome::Parsed(e)
                &&& email_matches(form, e)
                &&& e.attachments@ == metas
            },
            Err(None) => r matches ParseOutcome::Failed(ParseError::MalformedAttachmentInfo),
            Err(Some(name)) => {
                &&& r matches ParseOutcome::Failed(ParseError::MissingField(f))
                &&& f@ == name
            },
        }
    }
}

impl Email {
    /// Reads an email out of a multipart form submission: required
    /// fields, spam suppression, text truncation, address extraction
    /// and attachment manifest resolution, exactly as
    /// `parse_outcome_matches` states.
    pub fn from_form_data(form: &FormMap) -> (r: ParseOutcome)
        ensures
            parse_outcome_matches(*form, r),
    {
        let from: String = match form.get("from") {
            Some(FormEntry::Field(s)) => s.clone(),
            _ => {
                return ParseOutcome::Failed(
                    ParseError::MissingField(String::from_str("from")),
                );
            },
        };
        let to_raw: String = match form.get("to") {
            Some(FormEntry::Field(s)) => s.clone(),
            _ => {
                return ParseOutcome::Failed(ParseError::MissingField(String::from_str("to")));
            },
        };
        let to = extract_addresses(to_raw.as_str());
        let subject: String = match form.get("subject") {
            Some(FormEntry::Field(s)) => s.clone(),
            _ => {
                return ParseOutcome::Failed(
                    ParseError::MissingField(String::from_str("subject")),
                );
            },
        };
        if starts_with(subject.as_str(), "[SPAM]") {
            return ParseOutcome::Suppressed;
        }
        let text: String = match form.get("text") {
            Some(FormEntry::Field(s)) => truncate_text(s.as_str(), TEXT_LIMIT),
            _ => truncate_text("本文を取得できませんでした", TEXT_LIMIT),
        };
        let attachments: Vec<FileMeta> = match form.get("attachment-info") {
            Some(FormEntry::Field(info)) => {
                match parse_attachment_keys(info.as_str()) {
                    Some(keys) => {
                        match resolve_attachments(form, &keys) {
                            Ok(metas) => metas,
                            Err(e) => {
                                return ParseOutcome::Failed(e);
                            },
                        }
                    },
                    None => {
                        return ParseOutcome::Failed(ParseError::MalformedAttachmentInfo);
                    },
                }
            },
            _ => Vec::new(),
        };
        proof {
            assert(Seq::<FileMeta>::empty() =~= Seq::<FileMeta>::empty());
        }
        ParseOutcome::Parsed(Email { from, to_raw, to, subject, text, attachments })
    }
}

} // verus!
