//! The pure parts of the language-model call: the settings read from the
//! key/value store with their defaults, and the endpoint URL derived from a
//! configured base URL. The HTTP request itself is I/O and stays with the
//! caller.
use vstd::prelude::*;

use crate::strutil::char_is_ws;
use crate::strutil::ends_with_seq;
use crate::strutil::is_ws;
use crate::strutil::str_ends_with;

verus! {

/// One chat message.
pub struct LlmMessage {
    pub role: String,
    pub content: String,
}

/// The completed call's payload.
pub struct LlmResponse {
    pub content: String,
}

/// The settings a call runs with, after defaulting.
pub struct LlmSettings {
    pub base_url: String,
    pub api_key: String,
    pub model: String,
    pub reasoning_enabled: bool,
}

/// The text with its leading characters satisfying `p` removed.
pub open spec fn trim_start_by(s: Seq<char>, p: spec_fn(char) -> bool) -> Seq<char>
    decreases s.len(),
{
    if s.len() > 0 && p(s[0]) {
        trim_start_by(s.drop_first(), p)
    } else {
        s
    }
}

/// The text with its trailing characters satisfying `p` removed.
pub open spec fn trim_end_by(s: Seq<char>, p: spec_fn(char) -> bool) -> Seq<char>
    decreases s.len(),
{
    if s.len() > 0 && p(s.last()) {
        trim_end_by(s.drop_last(), p)
    } else {
        s
    }
}

proof fn lemma_trim_start_at(s: Seq<char>, p: spec_fn(char) -> bool, fi: int)
    requires
        0 <= fi <= s.len(),
        forall|j: int| 0 <= j < fi ==> p(s[j]),
        fi < s.len() ==> !p(s[fi]),
    ensures
        trim_start_by(s, p) == s.skip(fi),
    decreases fi,
{
    if fi == 0 {
        assert(s.skip(0) =~= s);
    } else {
        assert(p(s[0]));
        let t = s.drop_first();
        assert(forall|j: int| 0 <= j < t.len() ==> #[trigger] t[j] == s[j + 1]);
        lemma_trim_start_at(t, p, fi - 1);
        assert(t.skip(fi - 1) =~= s.skip(fi));
    }
}

proof fn lemma_trim_end_at(s: Seq<char>, p: spec_fn(char) -> bool, ci: int)
    requires
        0 <= ci <= s.len(),
        forall|j: int| ci <= j < s.len() ==> p(s[j]),
        ci > 0 ==> !p(s[ci - 1]),
    ensures
        trim_end_by(s, p) == s.take(ci),
    decreases s.len() - ci,
{
    if ci == s.len() {
        assert(s.take(ci) =~= s);
    } else {
        assert(p(s.last()));
        let t = s.drop_last();
        assert(forall|j: int| 0 <= j < t.len() ==> #[trigger] t[j] == s[j]);
        lemma_trim_end_at(t, p, ci);
        assert(t.take(ci) =~= s.take(ci));
    }
}

/// The text with surrounding whitespace removed, as `str::trim` leaves it.
pub open spec fn trim_spec(s: Seq<char>) -> Seq<char> {
    trim_end_by(trim_start_by(s, |c: char| is_ws(c)), |c: char| is_ws(c))
}

/// Removes surrounding whitespace.
pub fn trim_str(s: &str) -> (r: &str)
    ensures
        r@ == trim_spec(s@),
{
    let ghost p = |c: char| is_ws(c);
    let n = s.unicode_len();
    let mut fi: usize = 0;
    while fi < n && char_is_ws(s.get_char(fi))
        invariant
            fi <= n,
            n == s@.len(),
            forall|j: int| 0 <= j < fi ==> is_ws(s@[j]),
        decreases n - fi,
    {
        fi += 1;
    }
    proof {
        lemma_trim_start_at(s@, p, fi as int);
    }
    if fi == n {
        proof {
            assert(s@.skip(n as int).len() == 0);
            assert(trim_end_by(s@.skip(n as int), p) == s@.skip(n as int));
        }
        let r = s.substring_char(n, n);
        proof {
            assert(r@ =~= s@.skip(n as int));
        }
        return r;
    }
    let mut ci: usize = n;
    while ci > fi && char_is_ws(s.get_char(ci - 1))
        invariant
            fi <= ci <= n,
            n == s@.len(),
            fi < n,
            !is_ws(s@[fi as int]),
            forall|j: int| ci <= j < n ==> is_ws(s@[j]),
        decreases ci,
    {
        ci -= 1;
    }
    proof {
        // the scan cannot stop at the first non-blank index unless that
        // character itself ends the trimmed text
        assert(ci > fi ==> !is_ws(s@[ci - 1]));
        assert(ci == fi ==> !is_ws(s@[fi as int]));
        let t = s@.skip(fi as int);
        assert(forall|j: int| 0 <= j < t.len() ==> #[trigger] t[j] == s@[j + fi]);
        lemma_trim_end_at(t, p, ci - fi as int);
        assert(t.take(ci - fi as int) =~= s@.subrange(fi as int, ci as int));
    }
    let r = s.substring_char(fi, ci);
    proof {
        assert(r@ == s@.subrange(fi as int, ci as int));
    }
    r
}

/// Removes trailing slashes.
fn trim_end_slashes(s: &str) -> (r: &str)
    ensures
        r@ == trim_end_by(s@, |c: char| c == '/'),
{
    let ghost p = |c: char| c == '/';
    let n = s.unicode_len();
    let mut ci: usize = n;
    while ci > 0 && s.get_char(ci - 1) == '/'
        invariant
            ci <= n,
            n == s@.len(),
            forall|j: int| ci <= j < n ==> s@[j] == '/',
        decreases ci,
    {
        ci -= 1;
    }
    proof {
        lemma_trim_end_at(s@, p, ci as int);
    }
    let r = s.substring_char(0, ci);
    proof {
        assert(r@ =~= s@.take(ci as int));
    }
    r
}

/// The completions endpoint derived from a configured base URL: surrounding
/// whitespace and trailing slashes are dropped, and the completions path is
/// appended unless the URL already ends in it.
pub open spec fn llm_url_spec(base_url: Seq<char>) -> Seq<char> {
    let t = trim_end_by(trim_spec(base_url), |c: char| c == '/');
    if ends_with_seq(t, "/chat/completions"@) {
        t
    } else {
        t + "/chat/completions"@
    }
}

/// Derives the completions endpoint from a configured base URL.
pub fn llm_endpoint_url(base_url: &str) -> (r: String)
    ensures
        r@ == llm_url_spec(base_url@),
{
    let t = trim_end_slashes(trim_str(base_url));
    if str_ends_with(t, "/chat/completions") {
        String::from_str(t)
    } else {
        let mut r = String::from_str(t);
        r.append("/chat/completions");
        r
    }
}

/// Applies the stored settings' defaults: the public router URL, the
/// default reasoning model, and reasoning on unless the stored flag says
/// otherwise. A missing key is the one fatal condition.
pub fn resolve_llm_settings(
    base_url: Option<String>,
    api_key: Option<String>,
    model: Option<String>,
    reasoning_enabled: Option<String>,
) -> (r: Result<LlmSettings, String>)
    ensures
        api_key is None ==> (r matches Err(m) && m@ == "LLM API Key not configured"@),
        api_key matches Some(key) ==> (r matches Ok(st) && st.api_key == key && st.base_url@ == (
        match base_url {
            Some(u) => u@,
            None => "https://openrouter.ai/api/v1"@,
        }) && st.model@ == (match model {
            Some(m) => m@,
            None => "moonshotai/kimi-k2-thinking"@,
        }) && st.reasoning_enabled == (match reasoning_enabled {
            Some(v) => v@ == "true"@,
            None => true,
        })),
{
    let key = match api_key {
        Some(k) => k,
        None => {
            return Err(String::from_str("LLM API Key not configured"));
        },
    };
    let base = match base_url {
        Some(u) => u,
        None => String::from_str("https://openrouter.ai/api/v1"),
    };
    let model = match model {
        Some(m) => m,
        None => String::from_str("moonshotai/kimi-k2-thinking"),
    };
    let reasoning = match reasoning_enabled {
        Some(v) => crate::strutil::str_eq(v.as_str(), "true"),
        None => true,
    };
    Ok(LlmSettings { base_url: base, api_key: key, model, reasoning_enabled: reasoning })
}

} // verus!
