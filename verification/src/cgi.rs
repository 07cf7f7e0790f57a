//! The CGI environment builder: maps an inbound request's method, path,
//! query and content headers into the CGI/1.1 variable set handed to the
//! backend's spawner.
//!
//! The variable set always carries `GATEWAY_INTERFACE=CGI/1.1`; the
//! request path is rebuilt from the URL segments; and exactly one of
//! `PATH_INFO` / `PATH_TRANSLATED` may be set at a time — setting either
//! clears the other.  Values are passed through unvalidated: a malformed
//! input reaches the backend unchanged.

use vstd::prelude::*;
use vstd::string::StringExecFns;

verus! {

/// The one request-path variable that is set, if any.
pub enum PathVar {
    /// `PATH_INFO`
    Info(String),
    /// `PATH_TRANSLATED`
    Translated(String),
}

/// A CGI variable set under construction, with the program it is for
/// and the program's arguments.
pub struct Cgi {
    /// The backend program to spawn.
    pub program: String,
    /// Arguments handed to the program.
    pub args: Vec<String>,
    /// `REQUEST_METHOD`.
    pub method: String,
    /// `PATH_INFO` or `PATH_TRANSLATED`, when set.
    pub path: Option<PathVar>,
    /// `QUERY_STRING`, when set.
    pub query: Option<String>,
    /// `CONTENT_TYPE`, when set.
    pub content_type: Option<String>,
    /// `CONTENT_LENGTH`, when set.
    pub content_length: Option<String>,
    /// Caller-supplied extra variables, in insertion order.
    pub extra: Vec<(String, String)>,
}

/// The variable names the builder manages itself.
pub open spec fn reserved_var(k: Seq<char>) -> bool {
    ||| k == "GATEWAY_INTERFACE"@
    ||| k == "REQUEST_METHOD"@
    ||| k == "PATH_INFO"@
    ||| k == "PATH_TRANSLATED"@
    ||| k == "QUERY_STRING"@
    ||| k == "CONTENT_TYPE"@
    ||| k == "CONTENT_LENGTH"@
}

/// The views of a name/value pair sequence.
pub open spec fn pairs_view(v: Seq<(String, String)>) -> Seq<(Seq<char>, Seq<char>)> {
    Seq::new(v.len(), |i: int| (v[i].0@, v[i].1@))
}

/// The views of a string sequence.
pub open spec fn strs_view(v: Seq<String>) -> Seq<Seq<char>> {
    Seq::new(v.len(), |i: int| v[i]@)
}

/// The variable such an optional value contributes, if any.
pub open spec fn opt_pair(k: Seq<char>, v: Option<String>) -> Seq<(Seq<char>, Seq<char>)> {
    match v {
        Option::Some(s) => seq![(k, s@)],
        Option::None => seq![],
    }
}

/// The variable the path field contributes, if any.
pub open spec fn path_pair(p: Option<PathVar>) -> Seq<(Seq<char>, Seq<char>)> {
    match p {
        Option::Some(PathVar::Info(s)) => seq![("PATH_INFO"@, s@)],
        Option::Some(PathVar::Translated(s)) => seq![("PATH_TRANSLATED"@, s@)],
        Option::None => seq![],
    }
}

/// The complete variable set a builder stands for, in the order the
/// spawner receives it.
pub open spec fn spec_env_vars(c: Cgi) -> Seq<(Seq<char>, Seq<char>)> {
    seq![("GATEWAY_INTERFACE"@, "CGI/1.1"@), ("REQUEST_METHOD"@, c.method@)] + path_pair(c.path)
        + opt_pair("QUERY_STRING"@, c.query) + opt_pair("CONTENT_TYPE"@, c.content_type) + opt_pair(
        "CONTENT_LENGTH"@,
        c.content_length,
    ) + pairs_view(c.extra@)
}

/// Whether the variable set carries a variable named `k`.
pub open spec fn env_has(c: Cgi, k: Seq<char>) -> bool {
    exists|i: int| 0 <= i < spec_env_vars(c).len() && spec_env_vars(c)[i].0 == k
}

/// `c` with `PATH_INFO` set to `p` — and `PATH_TRANSLATED` thereby
/// cleared.
pub open spec fn with_path_info(c: Cgi, p: String) -> Cgi {
    Cgi { path: Some(PathVar::Info(p)), ..c }
}

/// `c` with `PATH_TRANSLATED` set to `p` — and `PATH_INFO` thereby
/// cleared.
pub open spec fn with_path_translated(c: Cgi, p: String) -> Cgi {
    Cgi { path: Some(PathVar::Translated(p)), ..c }
}

impl Cgi {
    /// Extras never shadow the managed variables.
    pub open spec fn wf(&self) -> bool {
        forall|i: int| 0 <= i < self.extra@.len() ==> !reserved_var(#[trigger] self.extra@[i].0@)
    }

    /// A fresh variable set for `program`: the fixed
    /// `GATEWAY_INTERFACE=CGI/1.1` tag, and GET until a method is set.
    pub fn new(program: &str) -> (c: Cgi)
        ensures
            c.program@ == program@,
            c.args@.len() == 0,
            c.method@ == "GET"@,
            c.path is None,
            c.query is None,
            c.content_type is None,
            c.content_length is None,
            c.extra@.len() == 0,
            c.wf(),
    {
        Cgi {
            program: program.to_owned(),
            args: Vec::new(),
            method: String::from_str("GET"),
            path: None,
            query: None,
            content_type: None,
            content_length: None,
            extra: Vec::new(),
        }
    }

    /// Set `REQUEST_METHOD`.
    pub fn set_method(&mut self, method: String)
        ensures
            *final(self) == (Cgi { method, ..*old(self) }),
    {
        self.method = method;
    }

    /// Set `PATH_INFO`, clearing `PATH_TRANSLATED`: exactly one of the
    /// two is ever set.
    pub fn set_path(&mut self, path: String)
        ensures
            *final(self) == with_path_info(*old(self), path),
    {
        self.path = Some(PathVar::Info(path));
    }

    /// Set `PATH_TRANSLATED`, clearing `PATH_INFO`: exactly one of the
    /// two is ever set.
    pub fn set_path_translared(&mut self, path: String)
        ensures
            *final(self) == with_path_translated(*old(self), path),
    {
        self.path = Some(PathVar::Translated(path));
    }

    /// Set `QUERY_STRING`, verbatim from the URL.
    pub fn set_query(&mut self, query: String)
        ensures
            *final(self) == (Cgi { query: Some(query), ..*old(self) }),
    {
        self.query = Some(query);
    }

    /// Set `CONTENT_TYPE`, copied from the inbound headers.
    pub fn set_content_type(&mut self, content_type: String)
        ensures
            *final(self) == (Cgi { content_type: Some(content_type), ..*old(self) }),
    {
        self.content_type = Some(content_type);
    }

    /// Set `CONTENT_LENGTH`, copied from the inbound headers.  The
    /// dispatcher records it just before the spawner takes over: the
    /// whole request body is buffered and written to the backend in one
    /// pass, so the length is known up front.
    pub fn set_content_length(&mut self, content_length: String)
        ensures
            *final(self) == (Cgi { content_length: Some(content_length), ..*old(self) }),
    {
        self.content_length = Some(content_length);
    }

    /// Append a program argument.
    pub fn arg(&mut self, a: &str)
        ensures
            strs_view(final(self).args@) == strs_view(old(self).args@).push(a@),
            final(self).program == old(self).program,
            final(self).method == old(self).method,
            final(self).path == old(self).path,
            final(self).query == old(self).query,
            final(self).content_type == old(self).content_type,
            final(self).content_length == old(self).content_length,
            final(self).extra == old(self).extra,
    {
        self.args.push(a.to_owned());
        proof {
            assert(strs_view(self.args@) =~= strs_view(old(self).args@).push(a@));
        }
    }

    /// Record a caller-supplied variable (a backend export flag, a
    /// project root).  The managed variables have their own setters and
    /// may not be smuggled in here.
    pub fn env(&mut self, k: &str, v: &str)
        requires
            !reserved_var(k@),
        ensures
            pairs_view(final(self).extra@) == pairs_view(old(self).extra@).push((k@, v@)),
            old(self).wf() ==> final(self).wf(),
            final(self).program == old(self).program,
            final(self).args == old(self).args,
            final(self).method == old(self).method,
            final(self).path == old(self).path,
            final(self).query == old(self).query,
            final(self).content_type == old(self).content_type,
    {
        self.extra.push((k.to_owned(), v.to_owned()));
        proof {
            assert(pairs_view(self.extra@) =~= pairs_view(old(self).extra@).push((k@, v@)));
        }
    }

    /// Build the variable set an inbound request implies: its method,
    /// its path rebuilt from the URL segments, and — when present — its
    /// query string and content type, over a fresh set for `program`.
    pub fn from_request(
        program: &str,
        method: &str,
        segments: &Vec<String>,
        query: Option<&String>,
        content_type: Option<&String>,
    ) -> (c: Cgi)
        ensures
            c.program@ == program@,
            c.args@.len() == 0,
            c.method@ == method@,
            c.path matches Some(PathVar::Info(p)) && p@ == spec_build_path(strs_view(segments@)),
            match (c.query, query) {
                (Option::Some(a), Option::Some(b)) => a@ == b@,
                (Option::None, Option::None) => true,
                _ => false,
            },
            match (c.content_type, content_type) {
                (Option::Some(a), Option::Some(b)) => a@ == b@,
                (Option::None, Option::None) => true,
                _ => false,
            },
            c.content_length is None,
            c.extra@.len() == 0,
            c.wf(),
    {
        let mut c = Cgi::new(program);
        c.set_method(method.to_owned());
        c.set_path(build_path(segments));
        match query {
            Some(q) => c.set_query(q.clone()),
            None => {},
        }
        match content_type {
            Some(t) => c.set_content_type(t.clone()),
            None => {},
        }
        c
    }

    /// The complete variable set, in order: the fixed interface tag,
    /// the managed request variables, then the caller-supplied extras.
    pub fn env_vars(&self) -> (r: Vec<(String, String)>)
        ensures
            pairs_view(r@) == spec_env_vars(*self),
    {
        let mut r: Vec<(String, String)> = Vec::new();
        r.push((String::from_str("GATEWAY_INTERFACE"), String::from_str("CGI/1.1")));
        r.push((String::from_str("REQUEST_METHOD"), self.method.clone()));
        let ghost m0 = seq![("GATEWAY_INTERFACE"@, "CGI/1.1"@), ("REQUEST_METHOD"@, self.method@)];
        proof {
            assert(pairs_view(r@) =~= m0);
        }
        match &self.path {
            Some(PathVar::Info(p)) => {
                r.push((String::from_str("PATH_INFO"), p.clone()));
                proof {
                    assert(pairs_view(r@) =~= m0 + path_pair(self.path));
                }
            },
            Some(PathVar::Translated(p)) => {
                r.push((String::from_str("PATH_TRANSLATED"), p.clone()));
                proof {
                    assert(pairs_view(r@) =~= m0 + path_pair(self.path));
                }
            },
            None => {
                proof {
                    assert(pairs_view(r@) =~= m0 + path_pair(self.path));
                }
            },
        }
        let ghost m1 = m0 + path_pair(self.path);
        push_opt(&mut r, "QUERY_STRING", &self.query);
        push_opt(&mut r, "CONTENT_TYPE", &self.content_type);
        push_opt(&mut r, "CONTENT_LENGTH", &self.content_length);
        let ghost m2 = m1 + opt_pair("QUERY_STRING"@, self.query) + opt_pair(
            "CONTENT_TYPE"@,
            self.content_type,
        ) + opt_pair("CONTENT_LENGTH"@, self.content_length);
        proof {
            assert(m2 + pairs_view(self.extra@.take(0)) =~= m2);
        }
        let mut i: usize = 0;
        while i < self.extra.len()
            invariant
                i <= self.extra@.len(),
                pairs_view(r@) == m2 + pairs_view(self.extra@.take(i as int)),
            decreases self.extra@.len() - i,
        {
            let kv = (self.extra[i].0.clone(), self.extra[i].1.clone());
            r.push(kv);
            proof {
                assert(pairs_view(r@) =~= (m2 + pairs_view(self.extra@.take(i as int))).push(
                    (self.extra@[i as int].0@, self.extra@[i as int].1@),
                ));
                assert((m2 + pairs_view(self.extra@.take(i as int))).push(
                    (self.extra@[i as int].0@, self.extra@[i as int].1@),
                ) =~= m2 + pairs_view(self.extra@.take(i + 1)));
            }
            i = i + 1;
        }
        proof {
            assert(self.extra@.take(self.extra@.len() as int) =~= self.extra@);
            assert(pairs_view(r@) =~= spec_env_vars(*self));
        }
        r
    }
}

/// Push the variable an optional value contributes, under name `k`.
fn push_opt(r: &mut Vec<(String, String)>, k: &str, v: &Option<String>)
    ensures
        pairs_view(final(r)@) == pairs_view(old(r)@) + opt_pair(k@, *v),
{
    match v {
        Some(s) => {
            r.push((k.to_owned(), s.clone()));
            proof {
                assert(pairs_view(r@) =~= pairs_view(old(r)@) + opt_pair(k@, *v));
            }
        },
        None => {
            proof {
                assert(pairs_view(r@) =~= pairs_view(old(r)@) + opt_pair(k@, *v));
            }
        },
    }
}

/// The path a segment sequence rebuilds: each nonempty segment prefixed
/// with `/`; empty segments (leading, trailing or doubled slashes) are
/// dropped, and no segments at all yield the empty string, not `/`.
pub open spec fn spec_build_path(segs: Seq<Seq<char>>) -> Seq<char>
    decreases segs.len(),
{
    if segs.len() == 0 {
        Seq::empty()
    } else {
        spec_build_path(segs.drop_last()) + (if segs.last().len() == 0 {
            Seq::<char>::empty()
        } else {
            "/"@ + segs.last()
        })
    }
}

/// Rebuild a request path from its URL segments.
pub fn build_path(segments: &Vec<String>) -> (r: String)
    ensures
        r@ == spec_build_path(strs_view(segments@)),
{
    let mut path = String::new();
    let mut i: usize = 0;
    while i < segments.len()
        invariant
            i <= segments@.len(),
            path@ == spec_build_path(strs_view(segments@).take(i as int)),
        decreases segments@.len() - i,
    {
        let s = &segments[i];
        if !s.as_str().is_empty() {
            path.append("/");
            path.append(s.as_str());
        }
        proof {
            assert(strs_view(segments@).take(i + 1).drop_last() =~= strs_view(segments@).take(
                i as int,
            ));
            assert(strs_view(segments@).take(i + 1).last() == segments@[i as int]@);
        }
        i = i + 1;
    }
    proof {
        assert(strs_view(segments@).take(segments@.len() as int) =~= strs_view(segments@));
    }
    path
}

/// Every variable name in the set is a managed name contributed by the
/// field that is actually set, or the name of one of the extras.
proof fn lemma_env_index(c: Cgi, i: int)
    requires
        0 <= i < spec_env_vars(c).len(),
    ensures
        ({
            let k = spec_env_vars(c)[i].0;
            ||| k == "GATEWAY_INTERFACE"@
            ||| k == "REQUEST_METHOD"@
            ||| (k == "PATH_INFO"@ && c.path matches Some(PathVar::Info(_)))
            ||| (k == "PATH_TRANSLATED"@ && c.path matches Some(PathVar::Translated(_)))
            ||| (k == "QUERY_STRING"@ && c.query is Some)
            ||| (k == "CONTENT_TYPE"@ && c.content_type is Some)
            ||| (k == "CONTENT_LENGTH"@ && c.content_length is Some)
            ||| exists|j: int| 0 <= j < c.extra@.len() && k == #[trigger] c.extra@[j].0@
        }),
{
    let v = spec_env_vars(c);
    let pp = path_pair(c.path);
    let qq = opt_pair("QUERY_STRING"@, c.query);
    let tt = opt_pair("CONTENT_TYPE"@, c.content_type);
    let ll = opt_pair("CONTENT_LENGTH"@, c.content_length);
    let ex = pairs_view(c.extra@);
    if i < 2 {
    } else if i < 2 + pp.len() {
        assert(v[i] == pp[i - 2]);
        match c.path {
            Option::Some(PathVar::Info(s)) => {},
            Option::Some(PathVar::Translated(s)) => {},
            Option::None => {
                assert(false);
            },
        }
    } else if i < 2 + pp.len() + qq.len() {
        assert(v[i] == qq[i - 2 - pp.len()]);
        match c.query {
            Option::Some(s) => {},
            Option::None => {
                assert(false);
            },
        }
    } else if i < 2 + pp.len() + qq.len() + tt.len() {
        assert(v[i] == tt[i - 2 - pp.len() - qq.len()]);
        match c.content_type {
            Option::Some(s) => {},
            Option::None => {
                assert(false);
            },
        }
    } else if i < 2 + pp.len() + qq.len() + tt.len() + ll.len() {
        assert(v[i] == ll[i - 2 - pp.len() - qq.len() - tt.len()]);
        match c.content_length {
            Option::Some(s) => {},
            Option::None => {
                assert(false);
            },
        }
    } else {
        let j = i - (2 + pp.len() + qq.len() + tt.len() + ll.len());
        assert(v[i] == ex[j]);
        assert(v[i].0 == c.extra@[j].0@);
    }
}

/// Setting `PATH_INFO` after `PATH_TRANSLATED` was set removes
/// `PATH_TRANSLATED` from the variable set, and vice versa: however the
/// two setters are interleaved, at most one of the two variables ever
/// reaches the backend.
pub proof fn lemma_path_exclusive(c: Cgi, p: String, q: String)
    requires
        c.wf(),
    ensures
        with_path_info(with_path_translated(c, q), p) == with_path_info(c, p),
        with_path_translated(with_path_info(c, p), q) == with_path_translated(c, q),
        env_has(with_path_info(c, p), "PATH_INFO"@),
        !env_has(with_path_info(c, p), "PATH_TRANSLATED"@),
        env_has(with_path_translated(c, q), "PATH_TRANSLATED"@),
        !env_has(with_path_translated(c, q), "PATH_INFO"@),
{
    reveal_strlit("GATEWAY_INTERFACE");
    reveal_strlit("REQUEST_METHOD");
    reveal_strlit("PATH_INFO");
    reveal_strlit("PATH_TRANSLATED");
    reveal_strlit("QUERY_STRING");
    reveal_strlit("CONTENT_TYPE");
    reveal_strlit("CONTENT_LENGTH");
    // the two path variable names share their length with no other
    // managed name, so neither can collide with any of them
    assert("GATEWAY_INTERFACE"@.len() == 17);
    assert("REQUEST_METHOD"@.len() == 14);
    assert("PATH_INFO"@.len() == 9);
    assert("PATH_TRANSLATED"@.len() == 15);
    assert("QUERY_STRING"@.len() == 12);
    assert("CONTENT_TYPE"@.len() == 12);
    assert("CONTENT_LENGTH"@.len() == 14);
    let ci = with_path_info(c, p);
    assert(ci.wf());
    let vi = spec_env_vars(ci);
    assert(vi[2] == ("PATH_INFO"@, p@));
    assert(env_has(ci, "PATH_INFO"@));
    assert forall|i: int| 0 <= i < vi.len() implies vi[i].0 != "PATH_TRANSLATED"@ by {
        lemma_env_index(ci, i);
    }
    let ct = with_path_translated(c, q);
    assert(ct.wf());
    let vt = spec_env_vars(ct);
    assert(vt[2] == ("PATH_TRANSLATED"@, q@));
    assert(env_has(ct, "PATH_TRANSLATED"@));
    assert forall|i: int| 0 <= i < vt.len() implies vt[i].0 != "PATH_INFO"@ by {
        lemma_env_index(ct, i);
    }
}

} // verus!
