use vstd::prelude::*;
use crate::text::chars_of;
use crate::text::string_from;
use crate::text::owned;
use crate::text::trim;
use crate::text::has_prefix;
use crate::text::slice_chars;
use crate::text::find_char;
use crate::text::find_chars;
use crate::text::lines_of;
use crate::text::split_whitespace;
use crate::text::str_eq;
use crate::text::lines;
use crate::text::words;
use crate::text::trim_ws;
use crate::text::starts_with;
use crate::text::index_of;
use crate::text::find;
use crate::cms::models::ForgejoPR;
use crate::cms::models::ForgejoWebhookPayload;

verus! {

/// The first line of a text, or nothing.
pub open spec fn first_line_of(s: Seq<char>) -> Seq<char> {
    if lines(s).len() > 0 {
        lines(s)[0]
    } else {
        seq![]
    }
}

/// Decides `first_line_of`.
pub fn first_line(s: &str) -> (r: String)
    ensures
        r@ == first_line_of(s@),
{
    let ls = lines_of(&chars_of(s));
    if ls.len() > 0 {
        string_from(&ls[0])
    } else {
        String::new()
    }
}

/// Name, version and description read from a pull request: the title is
/// `NAME: VERSION` or `Add NAME VERSION`; the description is the body's
/// first line.
pub open spec fn pr_fields(title: Seq<char>, body: Seq<char>) -> (Seq<char>, Seq<char>, Seq<char>) {
    match index_of(title, ':') {
        Some(i) => (trim_ws(title.take(i)), trim_ws(title.skip(i + 1)), first_line_of(body)),
        None => if starts_with(title, "Add "@) || starts_with(title, "add "@) {
            let rest = title.skip(4);
            let parts = words(rest);
            if parts.len() >= 2 {
                (parts[0], parts[1], first_line_of(body))
            } else {
                (rest, "unknown"@, first_line_of(body))
            }
        } else {
            (title, "unknown"@, first_line_of(body))
        },
    }
}

/// Reads name, version and description from a pull request's title and body.
pub fn parse_pr_title(title: &str, body: &str) -> (r: (String, String, String))
    ensures
        (r.0@, r.1@, r.2@) == pr_fields(title@, body@),
{
    let t = chars_of(title);
    let desc = first_line(body);
    match find_char(&t, ':') {
        Some(i) => {
            let name = trim(&slice_chars(&t, 0, i));
            let rest = trim(&slice_chars(&t, i + 1, t.len()));
            assert(t@.subrange(0, i as int) =~= title@.take(i as int));
            assert(t@.subrange(i + 1, t@.len() as int) =~= title@.skip(i + 1));
            (string_from(&name), string_from(&rest), desc)
        },
        None => {
            let add_upper = chars_of("Add ");
            let add_lower = chars_of("add ");
            if has_prefix(&t, &add_upper) || has_prefix(&t, &add_lower) {
                proof {
                    reveal_strlit("Add ");
                    reveal_strlit("add ");
                }
                let rest = slice_chars(&t, 4, t.len());
                assert(rest@ =~= title@.skip(4));
                let parts = split_whitespace(&rest);
                if parts.len() >= 2 {
                    (string_from(&parts[0]), string_from(&parts[1]), desc)
                } else {
                    (string_from(&rest), owned("unknown"), desc)
                }
            } else {
                (owned(title), owned("unknown"), desc)
            }
        },
    }
}

/// The build script in a pull request's body: the text of the first fenced
/// block, trimmed, if it sets `name=` or `source=`; otherwise the whole body.
pub open spec fn build_script_of(body: Seq<char>) -> Seq<char> {
    match find(body, "```"@) {
        None => body,
        Some(start) => {
            let rest = body.skip(start + 3);
            match find(rest, "```"@) {
                None => body,
                Some(end) => {
                    let content = trim_ws(rest.take(end));
                    if find(content, "name="@) is Some || find(content, "source="@) is Some {
                        content
                    } else {
                        body
                    }
                },
            }
        },
    }
}

/// Decides `build_script_of`.
pub fn extract_build_script(body: &str) -> (r: String)
    ensures
        r@ == build_script_of(body@),
{
    let b = chars_of(body);
    let n = b.len();
    let fence = chars_of("```");
    proof {
        reveal_strlit("```");
    }
    match find_chars(&b, &fence) {
        None => owned(body),
        Some(start) => {
            proof {
                crate::text::lemma_find_occurs(b@, fence@, 0);
                assert(fence@.len() == 3);
                assert(crate::text::occurs_at(b@, fence@, start as int));
                assert(start + 3 <= b@.len());
            }
            let rest = slice_chars(&b, start + 3, n);
            assert(rest@ =~= body@.skip(start + 3));
            match find_chars(&rest, &fence) {
                None => owned(body),
                Some(end) => {
                    proof {
                        crate::text::lemma_find_occurs(rest@, fence@, 0);
                    }
                    let content = trim(&slice_chars(&rest, 0, end));
                    assert(rest@.subrange(0, end as int) =~= rest@.take(end as int));
                    let has_name = find_chars(&content, &chars_of("name=")).is_some();
                    let has_source = find_chars(&content, &chars_of("source=")).is_some();
                    if has_name || has_source {
                        string_from(&content)
                    } else {
                        owned(body)
                    }
                },
            }
        },
    }
}

/// A package submission read from a pull request.
#[derive(Debug, Clone)]
pub struct NewSubmission {
    pub forgejo_pr_id: i64,
    pub forgejo_pr_url: String,
    pub package_name: String,
    pub package_version: String,
    pub description: String,
    pub submitter: String,
    pub build_script: String,
}

/// What the server does with a pull-request event.
#[derive(Debug, Clone)]
pub enum WebhookAction {
    /// Not an opened pull request: acknowledged and ignored.
    Ignored,
    /// An opened pull request without its data.
    NoPrData,
    /// A new submission to record.
    Create(NewSubmission),
}

/// `o`'s text, or `d`.
pub open spec fn text_or(o: Option<String>, d: Seq<char>) -> Seq<char> {
    match o {
        Some(s) => s@,
        None => d,
    }
}

/// The submission a pull request makes.
pub open spec fn submission_of(pr: ForgejoPR, s: NewSubmission) -> bool {
    let title = text_or(pr.title, "Unknown"@);
    let body = text_or(pr.body, ""@);
    let f = pr_fields(title, body);
    &&& s.forgejo_pr_id == pr.id
    &&& s.forgejo_pr_url@ == text_or(pr.html_url, ""@)
    &&& s.package_name@ == f.0
    &&& s.package_version@ == f.1
    &&& s.description@ == f.2
    &&& s.submitter@ == (match pr.user {
        Some(u) => u.login@,
        None => "unknown"@,
    })
    &&& s.build_script@ == build_script_of(body)
}

fn text_or_default(o: &Option<String>, d: &str) -> (r: String)
    ensures
        r@ == text_or(*o, d@),
{
    match o {
        Some(s) => owned(s.as_str()),
        None => owned(d),
    }
}

/// Decides what to do with a pull-request event from the forge.
pub fn webhook_action(payload: &ForgejoWebhookPayload) -> (r: WebhookAction)
    ensures
        !(payload.action matches Some(a) && a@ == "opened"@) ==> r is Ignored,
        (payload.action matches Some(a) && a@ == "opened"@) && payload.pull_request is None ==> r is NoPrData,
        (payload.action matches Some(a) && a@ == "opened"@) ==> match payload.pull_request {
            Some(pr) => r matches WebhookAction::Create(s) && submission_of(pr, s),
            None => true,
        },
{
    let opened = match &payload.action {
        Some(a) => str_eq(a.as_str(), "opened"),
        None => false,
    };
    if !opened {
        return WebhookAction::Ignored;
    }
    match &payload.pull_request {
        None => WebhookAction::NoPrData,
        Some(pr) => {
            let title = text_or_default(&pr.title, "Unknown");
            let body = text_or_default(&pr.body, "");
            let submitter = match &pr.user {
                Some(u) => owned(u.login.as_str()),
                None => owned("unknown"),
            };
            let url = text_or_default(&pr.html_url, "");
            let (name, version, description) = parse_pr_title(title.as_str(), body.as_str());
            let script = extract_build_script(body.as_str());
            WebhookAction::Create(
                NewSubmission {
                    forgejo_pr_id: pr.id,
                    forgejo_pr_url: url,
                    package_name: name,
                    package_version: version,
                    description,
                    submitter,
                    build_script: script,
                },
            )
        },
    }
}

} // verus!
