//! Where a request goes upstream: the per-request context, the endpoints of
//! the direct and Vertex variants, and the non-streaming form of a request
//! that fake streaming sends.

use vstd::prelude::*;
use crate::error::ClewdrError;
use crate::text::chars_of;

verus! {

/// The base URL of the direct Gemini API.
pub const GEMINI_ENDPOINT: &'static str = "https://generativelanguage.googleapis.com";

/// The request and response dialect spoken with the Gemini family.
#[derive(Debug, Clone, Copy, PartialEq, Eq, Structural)]
pub enum GeminiApiFormat {
    Gemini,
    OpenAI,
}

impl GeminiApiFormat {
    /// The dialect's name, as shown in logs.
    pub fn name(&self) -> (r: &'static str)
        ensures
            *self == GeminiApiFormat::Gemini ==> r@ == "Gemini"@,
            *self == GeminiApiFormat::OpenAI ==> r@ == "OpenAI"@,
    {
        match self {
            GeminiApiFormat::Gemini => "Gemini",
            GeminiApiFormat::OpenAI => "OpenAI",
        }
    }
}

/// The query arguments a client sent along a Gemini-native request.
pub struct GeminiArgs {
    /// `alt=sse` asks the upstream for server-sent events.
    pub alt: Option<String>,
}

/// What preprocessing derived from a client request.
pub struct GeminiContext {
    pub model: String,
    pub stream: bool,
    /// The upstream path after `/v1beta/`, which names the method.
    pub path: String,
    pub vertex: bool,
    pub api_format: GeminiApiFormat,
    pub query: GeminiArgs,
}

/// `s` with every occurrence of `pat` replaced by `rep`, scanning from the
/// left without overlap (the `str::replace` reading).
pub open spec fn replace_all(s: Seq<char>, pat: Seq<char>, rep: Seq<char>) -> Seq<char>
    decreases s.len(),
{
    if s.len() == 0 {
        Seq::empty()
    } else if 0 < pat.len() <= s.len() && s.subrange(0, pat.len() as int) == pat {
        rep + replace_all(s.subrange(pat.len() as int, s.len() as int), pat, rep)
    } else {
        seq![s[0]] + replace_all(s.drop_first(), pat, rep)
    }
}

fn matches_at(s: &Vec<char>, i: usize, pat: &Vec<char>) -> (r: bool)
    requires
        i <= s@.len(),
    ensures
        r == (i + pat@.len() <= s@.len() && s@.subrange(i as int, i + pat@.len()) == pat@),
{
    let n = s.len();
    if pat.len() > n - i {
        return false;
    }
    let mut k: usize = 0;
    while k < pat.len()
        invariant
            n == s@.len(),
            i + pat@.len() <= s@.len(),
            k <= pat@.len(),
            forall|p: int| 0 <= p < k ==> s@[i + p] == pat@[p],
        decreases pat.len() - k,
    {
        if s[i + k] != pat[k] {
            assert(s@.subrange(i as int, i + pat@.len())[k as int] != pat@[k as int]);
            return false;
        }
        k += 1;
    }
    assert(s@.subrange(i as int, i + pat@.len()) =~= pat@);
    true
}

/// Replaces every occurrence of `pat` in `s` by `rep`.
pub fn replace_all_exec(s: &str, pat: &str, rep: &str) -> (r: String)
    requires
        pat@.len() > 0,
    ensures
        r@ == replace_all(s@, pat@, rep@),
{
    let cs = chars_of(s);
    let ps = chars_of(pat);
    let ghost full = s@;
    let mut out = String::new();
    let mut i: usize = 0;
    assert(full.subrange(0, full.len() as int) =~= full);
    while i < cs.len()
        invariant
            cs@ == full,
            ps@ == pat@,
            pat@.len() > 0,
            i <= full.len(),
            out@ + replace_all(full.subrange(i as int, full.len() as int), pat@, rep@) == replace_all(full, pat@, rep@),
        decreases cs.len() - i,
    {
        let ghost rest = full.subrange(i as int, full.len() as int);
        if matches_at(&cs, i, &ps) {
            assert(rest.subrange(0, pat@.len() as int) =~= full.subrange(i as int, i + pat@.len()));
            assert(rest.subrange(pat@.len() as int, rest.len() as int) =~= full.subrange(i + pat@.len(), full.len() as int));
            let ghost before = out@;
            out.append(rep);
            assert(out@ + replace_all(full.subrange(i + pat@.len(), full.len() as int), pat@, rep@)
                =~= before + replace_all(rest, pat@, rep@));
            i = i + ps.len();
        } else {
            proof {
                if pat@.len() <= rest.len() {
                    assert(rest.subrange(0, pat@.len() as int) =~= full.subrange(i as int, i + pat@.len()));
                }
            }
            assert(rest.drop_first() =~= full.subrange(i + 1, full.len() as int));
            let ghost before = out@;
            crate::text::push_char(&mut out, cs[i]);
            assert(out@ + replace_all(full.subrange(i + 1, full.len() as int), pat@, rep@)
                =~= before + replace_all(rest, pat@, rep@));
            i = i + 1;
        }
    }
    assert(full.subrange(i as int, full.len() as int) =~= Seq::<char>::empty());
    assert(out@ + Seq::<char>::empty() =~= out@);
    out
}

/// `pat` occurs somewhere in `s`.
pub open spec fn contains_seq(s: Seq<char>, pat: Seq<char>) -> bool {
    exists|i: int| 0 <= i && i + pat.len() <= s.len() && #[trigger] s.subrange(i, i + pat.len()) == pat
}

/// Whether `pat` occurs in `s`.
pub fn contains_str(s: &str, pat: &str) -> (r: bool)
    ensures
        r == contains_seq(s@, pat@),
{
    let cs = chars_of(s);
    let ps = chars_of(pat);
    let mut i: usize = 0;
    while i < cs.len()
        invariant
            cs@ == s@,
            ps@ == pat@,
            i <= s@.len(),
            forall|j: int| 0 <= j < i && j + pat@.len() <= s@.len() ==> #[trigger] s@.subrange(j, j + pat@.len()) != pat@,
        decreases cs.len() - i,
    {
        if matches_at(&cs, i, &ps) {
            return true;
        }
        i += 1;
    }
    matches_at(&cs, i, &ps)
}

/// The characters of `s` before its first `c`, or all of `s`.
pub open spec fn before_char(s: Seq<char>, c: char) -> Seq<char>
    decreases s.len(),
{
    if s.len() == 0 || s[0] == c {
        Seq::empty()
    } else {
        seq![s[0]] + before_char(s.drop_first(), c)
    }
}

/// The model named by a Gemini-native path `models/{model}:{method}`: what
/// stands between `models/` and the first `:`; empty for another path.
pub open spec fn model_of_path(path: Seq<char>) -> Seq<char> {
    let p = "models/"@;
    if p.len() <= path.len() && path.subrange(0, p.len() as int) == p {
        before_char(path.subrange(p.len() as int, path.len() as int), ':')
    } else {
        Seq::empty()
    }
}

pub fn model_from_path(path: &str) -> (r: String)
    ensures
        r@ == model_of_path(path@),
{
    proof {
        reveal_strlit("models/");
    }
    let cs = chars_of(path);
    let prefix = chars_of("models/");
    let mut r = String::new();
    if !matches_at(&cs, 0, &prefix) {
        return r;
    }
    let ghost rest = cs@.subrange(7, cs@.len() as int);
    let mut i: usize = 7;
    while i < cs.len() && cs[i] != ':'
        invariant
            7 <= i <= cs@.len(),
            cs@ == path@,
            r@ + before_char(cs@.subrange(i as int, cs@.len() as int), ':') == before_char(rest, ':'),
        decreases cs.len() - i,
    {
        let ghost tail = cs@.subrange(i as int, cs@.len() as int);
        assert(tail.drop_first() =~= cs@.subrange(i + 1, cs@.len() as int));
        let ghost before = r@;
        crate::text::push_char(&mut r, cs[i]);
        assert(r@ + before_char(cs@.subrange(i + 1, cs@.len() as int), ':') =~= before + before_char(tail, ':'));
        i += 1;
    }
    assert(before_char(cs@.subrange(i as int, cs@.len() as int), ':') =~= Seq::<char>::empty());
    assert(r@ + Seq::<char>::empty() =~= r@);
    r
}

/// Whether an upstream answer with HTTP status `code` succeeded (2xx); any
/// other status is reported as `UpstreamHttp` with the answer's body.
pub fn is_success_status(code: u16) -> (r: bool)
    ensures
        r == (200 <= code < 300),
{
    200 <= code && code < 300
}

/// A Gemini-native path asks for a streaming answer when it names the
/// `streamGenerateContent` method.
pub fn is_stream_path(path: &str) -> (r: bool)
    ensures
        r == contains_seq(path@, "streamGenerateContent"@),
{
    contains_str(path, "streamGenerateContent")
}

/// The upstream method: `streamGenerateContent` for a streaming call,
/// `generateContent` otherwise.
pub open spec fn method_name(stream: bool) -> Seq<char> {
    if stream {
        "streamGenerateContent"@
    } else {
        "generateContent"@
    }
}

pub fn generate_method(stream: bool) -> (r: &'static str)
    ensures
        r@ == method_name(stream),
{
    if stream {
        "streamGenerateContent"
    } else {
        "generateContent"
    }
}

impl GeminiContext {
    /// The same request sent as a single non-streaming call: the method in
    /// the path becomes `generateContent` and `alt=sse` is dropped.
    pub fn non_streaming(&self) -> (r: GeminiContext)
        ensures
            r.stream == false,
            r.path@ == replace_all(self.path@, "streamGenerateContent"@, "generateContent"@),
            r.query.alt is None <==> (self.query.alt is None || self.query.alt->Some_0@ == "sse"@),
            r.query.alt is Some ==> r.query.alt == self.query.alt,
            r.model == self.model,
            r.vertex == self.vertex,
            r.api_format == self.api_format,
    {
        proof {
            reveal_strlit("streamGenerateContent");
        }
        let path = replace_all_exec(self.path.as_str(), "streamGenerateContent", "generateContent");
        let sse = String::from_str("sse");
        let alt = match &self.query.alt {
            None => None,
            Some(a) => if *a == sse {
                None
            } else {
                Some(a.clone())
            },
        };
        GeminiContext {
            model: self.model.clone(),
            stream: false,
            path,
            vertex: self.vertex,
            api_format: self.api_format,
            query: GeminiArgs { alt },
        }
    }
}

/// The direct Gemini URL: `{GEMINI_ENDPOINT}/v1beta/{path}`.
pub fn gemini_url(path: &str) -> (r: String)
    ensures
        r@ == GEMINI_ENDPOINT@ + "/v1beta/"@ + path@,
{
    let mut r = String::from_str(GEMINI_ENDPOINT);
    r.append("/v1beta/");
    r.append(path);
    r
}

/// The OpenAI-compatible chat endpoint of the direct Gemini API.
pub fn gemini_openai_url() -> (r: String)
    ensures
        r@ == GEMINI_ENDPOINT@ + "/v1beta/openai/chat/completions"@,
{
    let mut r = String::from_str(GEMINI_ENDPOINT);
    r.append("/v1beta/openai/chat/completions");
    r
}

/// The query of a direct Gemini-native call: the client's `alt`, then the key.
pub fn gemini_query(args: &GeminiArgs, key: &str) -> (r: Vec<(String, String)>)
    ensures
        args.alt is None ==> r@.len() == 1,
        args.alt is Some ==> r@.len() == 2 && r@[0].0@ == "alt"@ && r@[0].1 == args.alt->Some_0,
        r@.last().0@ == "key"@,
        r@.last().1@ == key@,
{
    let mut r: Vec<(String, String)> = Vec::new();
    if let Some(alt) = &args.alt {
        r.push((String::from_str("alt"), alt.clone()));
    }
    r.push((String::from_str("key"), String::from_str(key)));
    r
}

/// `Bearer {token}`.
pub fn bearer(token: &str) -> (r: String)
    ensures
        r@ == "Bearer "@ + token@,
{
    let mut r = String::from_str("Bearer ");
    r.append(token);
    r
}

/// `s` without any number of leading copies of `p` (`str::trim_start_matches`).
pub open spec fn strip_prefixes(s: Seq<char>, p: Seq<char>) -> Seq<char>
    decreases s.len(),
{
    if 0 < p.len() <= s.len() && s.subrange(0, p.len() as int) == p {
        strip_prefixes(s.subrange(p.len() as int, s.len() as int), p)
    } else {
        s
    }
}

fn strip_prefixes_exec(s: &Vec<char>, from: usize, p: &Vec<char>) -> (r: usize)
    requires
        from <= s@.len(),
        p@.len() > 0,
    ensures
        from <= r <= s@.len(),
        s@.subrange(r as int, s@.len() as int) == strip_prefixes(s@.subrange(from as int, s@.len() as int), p@),
{
    let n = s.len();
    let mut i = from;
    while matches_at(s, i, p)
        invariant
            n == s@.len(),
            from <= i <= s@.len(),
            p@.len() > 0,
            strip_prefixes(s@.subrange(i as int, s@.len() as int), p@) == strip_prefixes(s@.subrange(from as int, s@.len() as int), p@),
        decreases s@.len() - i,
    {
        let ghost rest = s@.subrange(i as int, s@.len() as int);
        assert(rest.subrange(0, p@.len() as int) =~= s@.subrange(i as int, i + p@.len()));
        assert(rest.subrange(p@.len() as int, rest.len() as int) =~= s@.subrange(i + p@.len(), s@.len() as int));
        i = i + p.len();
    }
    let ghost rest = s@.subrange(i as int, s@.len() as int);
    proof {
        if 0 < p@.len() <= rest.len() {
            assert(rest.subrange(0, p@.len() as int) =~= s@.subrange(i as int, i + p@.len()));
        }
    }
    i
}

/// The proxy URL used for the OAuth2 token exchange: the scheme prefixes
/// `http://`, `https://` and `socks5://` are stripped in that order (each as
/// often as it repeats), and `http://` is put in front.
pub open spec fn oauth_proxy_of(proxy: Seq<char>) -> Seq<char> {
    "http://"@ + strip_prefixes(strip_prefixes(strip_prefixes(proxy, "http://"@), "https://"@), "socks5://"@)
}

pub fn oauth_proxy_url(proxy: &str) -> (r: String)
    ensures
        r@ == oauth_proxy_of(proxy@),
{
    proof {
        reveal_strlit("http://");
        reveal_strlit("https://");
        reveal_strlit("socks5://");
    }
    let cs = chars_of(proxy);
    let http = chars_of("http://");
    let https = chars_of("https://");
    let socks = chars_of("socks5://");
    assert(cs@.subrange(0, cs@.len() as int) =~= cs@);
    let a = strip_prefixes_exec(&cs, 0, &http);
    let b = strip_prefixes_exec(&cs, a, &https);
    let c = strip_prefixes_exec(&cs, b, &socks);
    let mut r = String::from_str("http://");
    let rest = crate::text::string_of(&cs, c, cs.len());
    r.append(rest.as_str());
    r
}

/// The Vertex URL for a project, model and dialect.
pub open spec fn vertex_url_of(format: GeminiApiFormat, project: Seq<char>, model: Seq<char>, stream: bool) -> Seq<char> {
    match format {
        GeminiApiFormat::Gemini => "https://aiplatform.googleapis.com/v1/projects/"@ + project
            + "/locations/global/publishers/google/models/"@ + model + ":"@ + method_name(stream),
        GeminiApiFormat::OpenAI => "https://aiplatform.googleapis.com/v1beta1/projects/"@ + project
            + "/locations/global/endpoints/openapi/chat/completions"@,
    }
}

/// What the logic reads of a Vertex service-account credential.
pub struct VertexCredential {
    pub project_id: Option<String>,
}

/// The Vertex URL for `ctx`, or `BadRequest` when no credential is
/// configured. A credential without a project id targets the empty project.
pub fn vertex_url(credential: Option<&VertexCredential>, ctx: &GeminiContext) -> (r: Result<String, ClewdrError>)
    ensures
        credential is None ==> r is Err && r->Err_0 is BadRequest && r->Err_0->BadRequest_msg@ == "Vertex credential not found"@,
        credential is Some ==> r is Ok && r->Ok_0@ == vertex_url_of(
            ctx.api_format,
            match credential->Some_0.project_id { Some(p) => p@, None => Seq::empty() },
            ctx.model@,
            ctx.stream,
        ),
{
    let cred = match credential {
        None => return Err(ClewdrError::BadRequest { msg: String::from_str("Vertex credential not found") }),
        Some(c) => c,
    };
    let project = match &cred.project_id {
        Some(p) => p.clone(),
        None => String::new(),
    };
    match ctx.api_format {
        GeminiApiFormat::Gemini => {
            let mut r = String::from_str("https://aiplatform.googleapis.com/v1/projects/");
            r.append(project.as_str());
            r.append("/locations/global/publishers/google/models/");
            r.append(ctx.model.as_str());
            r.append(":");
            r.append(generate_method(ctx.stream));
            Ok(r)
        },
        GeminiApiFormat::OpenAI => {
            let mut r = String::from_str("https://aiplatform.googleapis.com/v1beta1/projects/");
            r.append(project.as_str());
            r.append("/locations/global/endpoints/openapi/chat/completions");
            Ok(r)
        },
    }
}

} // verus!
