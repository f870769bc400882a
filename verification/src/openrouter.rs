//! Commit messages written by a model on OpenRouter: the configuration, the
//! prompt and headers of a request, and the cleaning of the reply.
//!
//! The HTTP exchange itself (and reading the environment) is the caller's.
use vstd::prelude::*;
use crate::text::{
    chars_of, has_prefix, lines_of, lines_vec, push_chars, push_decimal, push_str, starts_with, strs,
    trim, trim_end, trim_end_chars, trim_string, decimal,
};

verus! {

broadcast use vstd::string::group_string_axioms;

#[derive(Clone, Debug)]
pub struct OpenRouterConfig {
    pub api_key: String,
    pub model: String,
    pub referer: Option<String>,
    pub title: Option<String>,
}

pub open spec fn opt_text(o: Option<String>) -> Option<Seq<char>> {
    match o {
        Some(s) => Some(s@),
        None => None,
    }
}

impl OpenRouterConfig {
    /// The configuration from the values of `OPENROUTER_API_KEY`,
    /// `OPENROUTER_MODEL`, `OPENROUTER_REFERER` and `OPENROUTER_TITLE` (each
    /// `None` when unset): the key is required, the model defaults to
    /// `openai/gpt-5.2`.
    pub fn from_values(
        api_key: Option<String>,
        model: Option<String>,
        referer: Option<String>,
        title: Option<String>,
    ) -> (r: Result<Self, String>)
        ensures
            match r {
                Ok(c) => api_key is Some && c.api_key@ == api_key->0@ && c.model@ == (match model {
                    Some(m) => m@,
                    None => "openai/gpt-5.2"@,
                }) && opt_text(c.referer) == opt_text(referer) && opt_text(c.title) == opt_text(
                    title,
                ),
                Err(e) => api_key is None && e@ == "Missing OPENROUTER_API_KEY"@,
            },
    {
        let api_key = match api_key {
            Some(k) => k,
            None => {
                return Err("Missing OPENROUTER_API_KEY".to_owned());
            },
        };
        let model = match model {
            Some(m) => m,
            None => "openai/gpt-5.2".to_owned(),
        };
        Ok(OpenRouterConfig { api_key, model, referer, title })
    }
}

/// The system prompt of a commit-message request.
pub open spec fn system_prompt() -> Seq<char> {
    "You write git commit messages. "@
        + "Output only the commit message text (no code fences, no quotes). "@
        + "Prefer 1 line summary, optionally blank line + short body. "@ + "Use imperative mood."@
}

/// The system and user prompts asking for a message for `staged_diff`.
pub fn commit_prompt(staged_diff: &str) -> (r: (String, String))
    ensures
        r.0@ == system_prompt(),
        r.1@ == "Write a commit message for this staged diff:\n\n"@ + staged_diff@,
{
    let mut system = String::new();
    push_str(&mut system, "You write git commit messages. ");
    push_str(&mut system, "Output only the commit message text (no code fences, no quotes). ");
    push_str(&mut system, "Prefer 1 line summary, optionally blank line + short body. ");
    push_str(&mut system, "Use imperative mood.");
    let mut user = String::new();
    push_str(&mut user, "Write a commit message for this staged diff:\n\n");
    push_str(&mut user, staged_diff);
    (system, user)
}

/// The headers of a request: the bearer key and the content type, then the
/// referer and the title when they are configured.
pub fn request_headers(cfg: &OpenRouterConfig) -> (r: Vec<(String, String)>)
    ensures
        r@.map_values(|h: (String, String)| (h.0@, h.1@)) == seq![
            ("Authorization"@, "Bearer "@ + cfg.api_key@),
            ("Content-Type"@, "application/json"@),
        ] + (match cfg.referer {
            Some(x) => seq![("HTTP-Referer"@, x@)],
            None => Seq::empty(),
        }) + (match cfg.title {
            Some(x) => seq![("X-Title"@, x@)],
            None => Seq::empty(),
        }),
{
    let mut r: Vec<(String, String)> = Vec::new();
    let mut auth = "Bearer ".to_owned();
    push_str(&mut auth, cfg.api_key.as_str());
    r.push(("Authorization".to_owned(), auth));
    r.push(("Content-Type".to_owned(), "application/json".to_owned()));
    let ghost base = r@.map_values(|h: (String, String)| (h.0@, h.1@));
    match &cfg.referer {
        Some(x) => {
            r.push(("HTTP-Referer".to_owned(), x.clone()));
        },
        None => {},
    }
    let ghost mid = r@.map_values(|h: (String, String)| (h.0@, h.1@));
    match &cfg.title {
        Some(x) => {
            r.push(("X-Title".to_owned(), x.clone()));
        },
        None => {},
    }
    assert(r@.map_values(|h: (String, String)| (h.0@, h.1@)) =~= seq![
        ("Authorization"@, "Bearer "@ + cfg.api_key@),
        ("Content-Type"@, "application/json"@),
    ] + (match cfg.referer {
        Some(x) => seq![("HTTP-Referer"@, x@)],
        None => Seq::empty(),
    }) + (match cfg.title {
        Some(x) => seq![("X-Title"@, x@)],
        None => Seq::empty(),
    }));
    r
}

/// The error reported for an HTTP error status.
pub fn http_error(code: u16, body: &str) -> (r: String)
    ensures
        r@ == "OpenRouter HTTP "@ + decimal(code as nat) + ": "@ + body@,
{
    let mut s = "OpenRouter HTTP ".to_owned();
    push_decimal(&mut s, code as u64);
    push_str(&mut s, ": ");
    push_str(&mut s, body);
    s
}

/// The lines of `lines` that do not open or close a code fence, each
/// without trailing white space and followed by a newline.
pub open spec fn unfenced(lines: Seq<Seq<char>>) -> Seq<char>
    decreases lines.len(),
{
    if lines.len() == 0 {
        Seq::empty()
    } else {
        let r = unfenced(lines.drop_last());
        let l = trim_end(lines.last());
        if has_prefix(l, "```"@) {
            r
        } else {
            r + l + seq!['\n']
        }
    }
}

/// A reply cleaned into a commit message: trimmed, code-fence lines
/// dropped, trailing white space removed from each line.
pub open spec fn sanitized(s: Seq<char>) -> Seq<char> {
    trim(unfenced(lines_of(trim(s))))
}

fn sanitize_message(s: &str) -> (r: String)
    ensures
        r@ == sanitized(s@),
{
    let t = trim_string(s);
    let lines = lines_vec(t.as_str());
    let ghost ls = lines_of(t@);
    assert(lines@.map_values(|x: Vec<char>| x@) == ls);
    let mut out = String::new();
    let mut i: usize = 0;
    while i < lines.len()
        invariant
            i <= lines.len(),
            lines@.map_values(|x: Vec<char>| x@) == ls,
            out@ == unfenced(ls.take(i as int)),
        decreases lines.len() - i,
    {
        assert(ls.take(i + 1).drop_last() == ls.take(i as int));
        assert(ls.take(i + 1).last() == lines@[i as int]@);
        let l = trim_end_chars(&lines[i]);
        if !starts_with(&l, "```") {
            push_chars(&mut out, &l);
            out.push('\n');
        }
        i = i + 1;
    }
    assert(ls.take(ls.len() as int) == ls);
    trim_string(out.as_str())
}

/// The commit message from a reply: the first choice's content (empty when
/// there is none), cleaned.
pub fn reply_message(first_choice: Option<String>) -> (r: String)
    ensures
        r@ == sanitized(match first_choice {
            Some(c) => c@,
            None => Seq::empty(),
        }),
{
    match first_choice {
        Some(c) => sanitize_message(c.as_str()),
        None => {
            proof {
                reveal_strlit("");
            }
            sanitize_message("")
        },
    }
}

} // verus!
