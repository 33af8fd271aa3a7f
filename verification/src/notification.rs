use vstd::prelude::*;

verus! {

use crate::email::Email;
use crate::form::FileMeta;
use crate::score::{dec_lt, parse_spec, render_of, SpamScore};

/// Embed color for a score above the threshold.
pub const COLOR_HIGH_ALERT: u32 = 0xFF0000;

/// Embed color for a score at or under the threshold.
pub const COLOR_LOW_ALERT: u32 = 0x0000FF;

/// Embed color when no score field was submitted at all.
pub const COLOR_NEUTRAL: u32 = 0x000000;

/// Cumulative byte budget for attachments shipped with the webhook.
pub const ATTACHMENT_CAP: u64 = 10 * 1024 * 1024;

/// One labeled field of the notification embed.
pub struct EmbedField {
    pub name: String,
    pub value: String,
    pub inline: bool,
}

/// The structured notification: title, severity color, description and
/// labeled fields.
pub struct Embed {
    pub title: String,
    pub color: u32,
    pub description: String,
    pub fields: Vec<EmbedField>,
}

/// The bytes taken by the first `n` attachments, in manifest order.
pub open spec fn size_prefix_sum(atts: Seq<FileMeta>, n: int) -> int
    decreases n,
{
    if n <= 0 {
        0
    } else {
        size_prefix_sum(atts, n - 1) + atts[n - 1].size
    }
}

/// An attachment rides along in the webhook body exactly when the
/// running total through it stays within the budget.
pub open spec fn included_spec(atts: Seq<FileMeta>, i: int, cap: int) -> bool {
    size_prefix_sum(atts, i + 1) <= cap
}

proof fn lemma_prefix_sum_bound(atts: Seq<FileMeta>, n: int)
    requires
        0 <= n,
    ensures
        0 <= size_prefix_sum(atts, n) <= n * 0xFFFF_FFFF_FFFF_FFFFu64,
    decreases n,
{
    if n > 0 {
        lemma_prefix_sum_bound(atts, n - 1);
    }
}

/// Which attachments ride along: one flag per attachment, true when the
/// cumulative size through it is within the budget. Later attachments
/// never bring an earlier one back in.
pub fn attachment_flags(atts: &Vec<FileMeta>, cap: u64) -> (r: Vec<bool>)
    ensures
        r@.len() == atts@.len(),
        forall|i: int| 0 <= i < atts@.len() ==> r@[i] == included_spec(atts@, i, cap as int),
{
    let n = atts.len();
    let mut flags: Vec<bool> = Vec::new();
    let mut total: u128 = 0;
    let mut i: usize = 0;
    while i < n
        invariant
            i <= n,
            n == atts@.len(),
            flags@.len() == i,
            total == size_prefix_sum(atts@, i as int),
            forall|k: int| 0 <= k < i ==> flags@[k] == included_spec(atts@, k, cap as int),
        decreases n - i,
    {
        proof {
            lemma_prefix_sum_bound(atts@, i as int);
        }
        total = total + atts[i].size as u128;
        flags.push(total <= cap as u128);
        i += 1;
    }
    flags
}

/// Exclusion is monotonic in manifest order: once the running total
/// passes the budget at one attachment, every later attachment stays
/// out too; no later attachment brings an earlier one back in.
pub proof fn lemma_exclusion_monotonic(atts: Seq<FileMeta>, i: int, j: int, cap: int)
    requires
        0 <= i <= j < atts.len(),
        !included_spec(atts, i, cap),
    ensures
        !included_spec(atts, j, cap),
    decreases j - i,
{
    if i < j {
        lemma_exclusion_monotonic(atts, i, j - 1, cap);
    }
}

/// One line of the attachment summary: name and MIME type, with the
/// over-budget notice when the attachment does not ride along.
pub open spec fn summary_line_spec(f: FileMeta, included: bool) -> Seq<char> {
    "- "@ + f.name@ + " ("@ + f.content_type@ + ")"@ + (if included {
        Seq::<char>::empty()
    } else {
        " サイズが大きすぎるのでメーラーからアクセスしてください"@
    }) + "\n"@
}

/// The attachment summary from entry `i` on.
pub open spec fn summary_from(atts: Seq<FileMeta>, i: int, cap: int) -> Seq<char>
    decreases atts.len() - i,
{
    if i < 0 || i >= atts.len() {
        Seq::empty()
    } else {
        summary_line_spec(atts[i], included_spec(atts, i, cap)) + summary_from(atts, i + 1, cap)
    }
}

/// The whole attachment summary: one line per attachment, in manifest
/// order, each flagged when over budget.
pub open spec fn summary_spec(atts: Seq<FileMeta>, cap: int) -> Seq<char> {
    summary_from(atts, 0, cap)
}

/// Builds the attachment summary text.
pub fn attachment_summary(atts: &Vec<FileMeta>, cap: u64) -> (r: String)
    ensures
        r@ == summary_spec(atts@, cap as int),
{
    let flags = attachment_flags(atts, cap);
    let n = atts.len();
    let mut out = String::new();
    let mut i: usize = 0;
    while i < n
        invariant
            i <= n,
            n == atts@.len(),
            flags@.len() == n,
            forall|k: int| 0 <= k < n ==> flags@[k] == included_spec(atts@, k, cap as int),
            out@ + summary_from(atts@, i as int, cap as int) == summary_spec(atts@, cap as int),
        decreases n - i,
    {
        let ghost out_before = out@;
        out.append("- ");
        out.append(atts[i].name.as_str());
        out.append(" (");
        out.append(atts[i].content_type.as_str());
        out.append(")");
        if !flags[i] {
            out.append(" サイズが大きすぎるのでメーラーからアクセスしてください");
        }
        out.append("\n");
        proof {
            assert(out@ =~= out_before + summary_line_spec(
                atts@[i as int],
                included_spec(atts@, i as int, cap as int),
            ));
            assert(out@ + summary_from(atts@, i + 1, cap as int) =~= out_before + summary_from(
                atts@,
                i as int,
                cap as int,
            ));
        }
        i += 1;
    }
    proof {
        assert(out@ + Seq::<char>::empty() =~= out@);
    }
    out
}

/// The severity of a notification: the embed color and description,
/// from the submitted score string (when the field was present at all)
/// and the configured threshold.
pub open spec fn severity_spec(
    spam_field: Option<Seq<char>>,
    threshold: (bool, Seq<char>, Seq<char>),
) -> (u32, Seq<char>) {
    match spam_field {
        None => (COLOR_NEUTRAL, Seq::<char>::empty()),
        Some(s) => if dec_lt(threshold, parse_spec(s)) {
            (COLOR_HIGH_ALERT, "スパムメールの可能性が高いです。注意してください。"@)
        } else {
            (COLOR_LOW_ALERT, "スパムメールの可能性は低いです。"@)
        },
    }
}

/// The view of an optional score field.
pub open spec fn opt_view(s: Option<&String>) -> Option<Seq<char>> {
    match s {
        Some(v) => Some(v@),
        None => None,
    }
}

/// The embed built for an email: the four fixed fields (sender,
/// recipients, subject, body), then the score field with the severity
/// coloring when a score field was submitted, then the attachment
/// summary when there are attachments.
pub open spec fn embed_matches(
    email: Email,
    spam_field: Option<Seq<char>>,
    threshold: (bool, Seq<char>, Seq<char>),
    e: Embed,
) -> bool {
    &&& e.title@ == "メールを受信しました"@
    &&& (e.color, e.description@) == severity_spec(spam_field, threshold)
    &&& e.fields@.len() == 4 + (if spam_field is Some {
        1int
    } else {
        0int
    }) + (if email.attachments@.len() > 0 {
        1int
    } else {
        0int
    })
    &&& e.fields@[0].name@ == "送信者"@ && e.fields@[0].value@ == email.from@
        && e.fields@[0].inline
    &&& e.fields@[1].name@ == "宛先"@ && e.fields@[1].value@ == email.to_raw@
        && e.fields@[1].inline
    &&& e.fields@[2].name@ == "件名"@ && e.fields@[2].value@ == email.subject@
        && e.fields@[2].inline
    &&& e.fields@[3].name@ == "本文"@ && e.fields@[3].value@ == email.text@
        && !e.fields@[3].inline
    &&& match spam_field {
        Some(s) => e.fields@[4].name@ == "スパムスコア"@ && e.fields@[4].value@ == render_of(
            parse_spec(s),
        ) && e.fields@[4].inline,
        None => true,
    }
    &&& email.attachments@.len() > 0 ==> {
        let last = e.fields@.len() - 1;
        e.fields@[last].name@ == "添付ファイル"@ && e.fields@[last].value@ == summary_spec(
            email.attachments@,
            ATTACHMENT_CAP as int,
        ) && !e.fields@[last].inline
    }
}

/// Builds the notification embed for an email, exactly as
/// `embed_matches` states.
pub fn build_embed(email: &Email, spam_field: Option<&String>, threshold: &SpamScore) -> (e: Embed)
    ensures
        embed_matches(*email, opt_view(spam_field), threshold.model(), e),
{
    let mut fields: Vec<EmbedField> = Vec::new();
    fields.push(
        EmbedField {
            name: String::from_str("送信者"),
            value: email.from.clone(),
            inline: true,
        },
    );
    fields.push(
        EmbedField {
            name: String::from_str("宛先"),
            value: email.to_raw.clone(),
            inline: true,
        },
    );
    fields.push(
        EmbedField {
            name: String::from_str("件名"),
            value: email.subject.clone(),
            inline: true,
        },
    );
    fields.push(
        EmbedField {
            name: String::from_str("本文"),
            value: email.text.clone(),
            inline: false,
        },
    );
    let (color, description): (u32, String) = match spam_field {
        Some(s) => {
            let score = crate::score::parse_score(s.as_str());
            fields.push(
                EmbedField {
                    name: String::from_str("スパムスコア"),
                    value: score.render(),
                    inline: true,
                },
            );
            if score.exceeds(threshold) {
                (
                    COLOR_HIGH_ALERT,
                    String::from_str("スパムメールの可能性が高いです。注意してください。"),
                )
            } else {
                (COLOR_LOW_ALERT, String::from_str("スパムメールの可能性は低いです。"))
            }
        },
        None => (COLOR_NEUTRAL, String::new()),
    };
    if email.attachments.len() > 0 {
        let summary = attachment_summary(&email.attachments, ATTACHMENT_CAP);
        fields.push(
            EmbedField { name: String::from_str("添付ファイル"), value: summary, inline: false },
        );
    }
    Embed { title: String::from_str("メールを受信しました"), color, description, fields }
}

} // verus!
