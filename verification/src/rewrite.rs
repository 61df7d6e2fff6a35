use vstd::prelude::*;

verus! {

/// The two families of rewrite rules: links to the short-name social site
/// (`twitter.com` / `x.com`) and links to `facebook.com`.
#[derive(Clone, Copy, PartialEq, Eq, Structural, Debug)]
pub enum RuleKind {
    Twitter,
    Facebook,
}

/// Characters that may appear in a host label: ASCII letters, digits, hyphen.
pub open spec fn is_host_char(c: char) -> bool {
    (97 <= c as u32 && c as u32 <= 122) || (65 <= c as u32 && c as u32 <= 90) || (48 <= c as u32
        && c as u32 <= 57) || c == '-'
}

/// ASCII whitespace; a path or query suffix runs until the first such character.
pub open spec fn is_space_char(c: char) -> bool {
    c == ' ' || c == '\t' || c == '\n' || c == '\r'
}

/// If the body carries `http://` or `https://` at position `i`, the position
/// right after the scheme; `None` otherwise.
pub open spec fn scheme_end_at(s: Seq<char>, i: int) -> Option<int> {
    if i + 8 <= s.len() && s[i] == 'h' && s[i + 1] == 't' && s[i + 2] == 't' && s[i + 3] == 'p'
        && s[i + 4] == 's' && s[i + 5] == ':' && s[i + 6] == '/' && s[i + 7] == '/' {
        Some(i + 8)
    } else if i + 7 <= s.len() && s[i] == 'h' && s[i + 1] == 't' && s[i + 2] == 't' && s[i + 3]
        == 'p' && s[i + 4] == ':' && s[i + 5] == '/' && s[i + 6] == '/' {
        Some(i + 7)
    } else {
        None
    }
}

pub open spec fn twitter_domain_at(s: Seq<char>, i: int) -> bool {
    i + 11 <= s.len() && s[i] == 't' && s[i + 1] == 'w' && s[i + 2] == 'i' && s[i + 3] == 't' && s[i
        + 4] == 't' && s[i + 5] == 'e' && s[i + 6] == 'r' && s[i + 7] == '.' && s[i + 8] == 'c' && s[i
        + 9] == 'o' && s[i + 10] == 'm'
}

pub open spec fn x_domain_at(s: Seq<char>, i: int) -> bool {
    i + 5 <= s.len() && s[i] == 'x' && s[i + 1] == '.' && s[i + 2] == 'c' && s[i + 3] == 'o' && s[i
        + 4] == 'm'
}

pub open spec fn facebook_domain_at(s: Seq<char>, i: int) -> bool {
    i + 12 <= s.len() && s[i] == 'f' && s[i + 1] == 'a' && s[i + 2] == 'c' && s[i + 3] == 'e' && s[i
        + 4] == 'b' && s[i + 5] == 'o' && s[i + 6] == 'o' && s[i + 7] == 'k' && s[i + 8] == '.' && s[i
        + 9] == 'c' && s[i + 10] == 'o' && s[i + 11] == 'm'
}

/// Length of the recognized domain of family `k` sitting at position `i`, if any.
pub open spec fn domain_len_at(s: Seq<char>, i: int, k: RuleKind) -> Option<int> {
    match k {
        RuleKind::Twitter => if twitter_domain_at(s, i) {
            Some(11int)
        } else if x_domain_at(s, i) {
            Some(5int)
        } else {
            None
        },
        RuleKind::Facebook => if facebook_domain_at(s, i) {
            Some(12int)
        } else {
            None
        },
    }
}

/// End of the maximal run of host-label characters starting at `i`.
pub open spec fn label_end(s: Seq<char>, i: int) -> int
    decreases s.len() - i when 0 <= i <= s.len()
{
    if i < s.len() && is_host_char(s[i]) {
        label_end(s, i + 1)
    } else {
        i
    }
}

/// End of the maximal run of non-whitespace characters starting at `i`.
pub open spec fn path_end(s: Seq<char>, i: int) -> int
    decreases s.len() - i when 0 <= i <= s.len()
{
    if i < s.len() && !is_space_char(s[i]) {
        path_end(s, i + 1)
    } else {
        i
    }
}

/// End of the host of family `k` starting at `i`: either a recognized domain
/// directly, or exactly one subdomain label followed by a recognized domain.
/// A domain that is merely a substring of a longer host does not qualify.
pub open spec fn host_end_at(s: Seq<char>, i: int, k: RuleKind) -> Option<int> {
    match domain_len_at(s, i, k) {
        Some(d) => Some(i + d),
        None => {
            let le = label_end(s, i);
            if le > i && le < s.len() && s[le] == '.' {
                match domain_len_at(s, le + 1, k) {
                    Some(d) => Some(le + 1 + d),
                    None => None,
                }
            } else {
                None
            }
        },
    }
}

/// A full match of family `k` at position `i`: scheme, host, and a host
/// boundary (the host must not continue with more label characters or another
/// label), then an optional `/...` suffix running to the next whitespace.
/// Returns the position after the host and the position after the whole match.
pub open spec fn match_at(s: Seq<char>, i: int, k: RuleKind) -> Option<(int, int)> {
    match scheme_end_at(s, i) {
        Some(se) => match host_end_at(s, se, k) {
            Some(he) => if he == s.len() || (!is_host_char(s[he]) && s[he] != '.') {
                if he < s.len() && s[he] == '/' {
                    Some((he, path_end(s, he)))
                } else {
                    Some((he, he))
                }
            } else {
                None
            },
            None => None,
        },
        None => None,
    }
}

/// The secure scheme every rewritten link starts with.
pub open spec fn https_prefix() -> Seq<char> {
    seq!['h', 't', 't', 'p', 's', ':', '/', '/']
}

/// The replacement domain of family `k`.
pub open spec fn repl_domain(k: RuleKind) -> Seq<char> {
    match k {
        RuleKind::Twitter => seq!['v', 'x', 't', 'w', 'i', 't', 't', 'e', 'r', '.', 'c', 'o', 'm'],
        RuleKind::Facebook => seq!['f', 'a', 'c', 'e', 'b', 'e', 'd', '.', 'c', 'o', 'm'],
    }
}

/// What a match with host end `he` and match end `me` is replaced by:
/// the secure scheme, the replacement domain, and the original suffix verbatim.
pub open spec fn replacement(s: Seq<char>, he: int, me: int, k: RuleKind) -> Seq<char> {
    https_prefix() + repl_domain(k) + s.subrange(he, me)
}

/// The body from position `i` on, with every non-overlapping match of family
/// `k` replaced, scanning left to right.
pub open spec fn rewritten_from(s: Seq<char>, i: int, k: RuleKind) -> Seq<char>
    decreases s.len() - i when 0 <= i <= s.len()
{
    if i >= s.len() {
        Seq::<char>::empty()
    } else {
        match match_at(s, i, k) {
            Some(m) => {
                if i < m.1 && m.1 <= s.len() && 0 <= m.0 && m.0 <= m.1 {
                    replacement(s, m.0, m.1, k) + rewritten_from(s, m.1, k)
                } else {
                    Seq::<char>::empty()
                }
            },
            None => seq![s[i]] + rewritten_from(s, i + 1, k),
        }
    }
}

/// One whole pass of family `k` over the body.
pub open spec fn rewritten(s: Seq<char>, k: RuleKind) -> Seq<char> {
    rewritten_from(s, 0, k)
}

/// Whether any match of family `k` starts at or after position `i`.
pub open spec fn has_match_from(s: Seq<char>, i: int, k: RuleKind) -> bool
    decreases s.len() - i when 0 <= i <= s.len()
{
    i < s.len() && (match_at(s, i, k) is Some || has_match_from(s, i + 1, k))
}

pub open spec fn has_match(s: Seq<char>, k: RuleKind) -> bool {
    has_match_from(s, 0, k)
}

/// Both passes, in rule order: the short-name family first, then the
/// `facebook.com` family over the first pass's output.
pub open spec fn rewritten_all(s: Seq<char>) -> Seq<char> {
    rewritten(rewritten(s, RuleKind::Twitter), RuleKind::Facebook)
}

/// When the relay considers a body worth rewriting.
pub open spec fn spec_needs_rewrite(s: Seq<char>) -> bool {
    has_match(s, RuleKind::Twitter) || has_match(rewritten(s, RuleKind::Twitter), RuleKind::Facebook)
}

proof fn lemma_label_end_bounds(s: Seq<char>, i: int)
    requires
        0 <= i <= s.len(),
    ensures
        i <= label_end(s, i) <= s.len(),
    decreases s.len() - i,
{
    if i < s.len() && is_host_char(s[i]) {
        lemma_label_end_bounds(s, i + 1);
    }
}

proof fn lemma_path_end_bounds(s: Seq<char>, i: int)
    requires
        0 <= i <= s.len(),
    ensures
        i <= path_end(s, i) <= s.len(),
    decreases s.len() - i,
{
    if i < s.len() && !is_space_char(s[i]) {
        lemma_path_end_bounds(s, i + 1);
    }
}

/// Every match is well framed: it starts strictly before its end, the host end
/// lies between, and the whole span stays inside the body.
proof fn lemma_match_at_bounds(s: Seq<char>, i: int, k: RuleKind)
    requires
        0 <= i <= s.len(),
        match_at(s, i, k) is Some,
    ensures
        ({
            let m = match_at(s, i, k)->Some_0;
            i < m.0 <= m.1 <= s.len()
        }),
{
    let se = scheme_end_at(s, i)->Some_0;
    let he = host_end_at(s, se, k)->Some_0;
    if domain_len_at(s, se, k) is None {
        lemma_label_end_bounds(s, se);
    }
    if he < s.len() && s[he] == '/' {
        lemma_path_end_bounds(s, he);
    }
}

fn is_host_char_exec(c: char) -> (r: bool)
    ensures
        r == is_host_char(c),
{
    let u = c as u32;
    (97 <= u && u <= 122) || (65 <= u && u <= 90) || (48 <= u && u <= 57) || c == '-'
}

fn is_space_char_exec(c: char) -> (r: bool)
    ensures
        r == is_space_char(c),
{
    c == ' ' || c == '\t' || c == '\n' || c == '\r'
}

fn scan_label_end(v: &Vec<char>, i: usize) -> (r: usize)
    requires
        i <= v.len(),
    ensures
        r as int == label_end(v@, i as int),
        i <= r <= v.len(),
{
    let mut j = i;
    while j < v.len() && is_host_char_exec(v[j])
        invariant
            i <= j <= v.len(),
            label_end(v@, i as int) == label_end(v@, j as int),
        decreases v.len() - j,
    {
        j = j + 1;
    }
    j
}

fn scan_path_end(v: &Vec<char>, i: usize) -> (r: usize)
    requires
        i <= v.len(),
    ensures
        r as int == path_end(v@, i as int),
        i <= r <= v.len(),
{
    let mut j = i;
    while j < v.len() && !is_space_char_exec(v[j])
        invariant
            i <= j <= v.len(),
            path_end(v@, i as int) == path_end(v@, j as int),
        decreases v.len() - j,
    {
        j = j + 1;
    }
    j
}

fn scan_scheme(v: &Vec<char>, i: usize) -> (r: Option<usize>)
    requires
        i <= v.len(),
    ensures
        match r {
            Some(se) => scheme_end_at(v@, i as int) == Some(se as int),
            None => scheme_end_at(v@, i as int) is None,
        },
{
    if v.len() - i >= 8 && v[i] == 'h' && v[i + 1] == 't' && v[i + 2] == 't' && v[i + 3] == 'p'
        && v[i + 4] == 's' && v[i + 5] == ':' && v[i + 6] == '/' && v[i + 7] == '/' {
        Some(i + 8)
    } else if v.len() - i >= 7 && v[i] == 'h' && v[i + 1] == 't' && v[i + 2] == 't' && v[i + 3]
        == 'p' && v[i + 4] == ':' && v[i + 5] == '/' && v[i + 6] == '/' {
        Some(i + 7)
    } else {
        None
    }
}

fn scan_domain(v: &Vec<char>, i: usize, k: RuleKind) -> (r: Option<usize>)
    requires
        i <= v.len(),
    ensures
        match r {
            Some(d) => domain_len_at(v@, i as int, k) == Some(d as int),
            None => domain_len_at(v@, i as int, k) is None,
        },
{
    match k {
        RuleKind::Twitter => {
            if v.len() - i >= 11 && v[i] == 't' && v[i + 1] == 'w' && v[i + 2] == 'i' && v[i + 3]
                == 't' && v[i + 4] == 't' && v[i + 5] == 'e' && v[i + 6] == 'r' && v[i + 7] == '.'
                && v[i + 8] == 'c' && v[i + 9] == 'o' && v[i + 10] == 'm' {
                Some(11)
            } else if v.len() - i >= 5 && v[i] == 'x' && v[i + 1] == '.' && v[i + 2] == 'c' && v[i
                + 3] == 'o' && v[i + 4] == 'm' {
                Some(5)
            } else {
                None
            }
        },
        RuleKind::Facebook => {
            if v.len() - i >= 12 && v[i] == 'f' && v[i + 1] == 'a' && v[i + 2] == 'c' && v[i + 3]
                == 'e' && v[i + 4] == 'b' && v[i + 5] == 'o' && v[i + 6] == 'o' && v[i + 7] == 'k'
                && v[i + 8] == '.' && v[i + 9] == 'c' && v[i + 10] == 'o' && v[i + 11] == 'm' {
                Some(12)
            } else {
                None
            }
        },
    }
}

fn scan_host(v: &Vec<char>, i: usize, k: RuleKind) -> (r: Option<usize>)
    requires
        i <= v.len(),
    ensures
        match r {
            Some(he) => {
                &&& host_end_at(v@, i as int, k) == Some(he as int)
                &&& i < he <= v.len()
            },
            None => host_end_at(v@, i as int, k) is None,
        },
{
    match scan_domain(v, i, k) {
        Some(d) => Some(i + d),
        None => {
            let le = scan_label_end(v, i);
            if le > i && le < v.len() && v[le] == '.' {
                match scan_domain(v, le + 1, k) {
                    Some(d) => Some(le + 1 + d),
                    None => None,
                }
            } else {
                None
            }
        },
    }
}

fn scan_match(v: &Vec<char>, i: usize, k: RuleKind) -> (r: Option<(usize, usize)>)
    requires
        i <= v.len(),
    ensures
        match r {
            Some(m) => {
                &&& match_at(v@, i as int, k) == Some((m.0 as int, m.1 as int))
                &&& i < m.0 <= m.1 <= v.len()
            },
            None => match_at(v@, i as int, k) is None,
        },
{
    match scan_scheme(v, i) {
        Some(se) => match scan_host(v, se, k) {
            Some(he) => {
                if he == v.len() || (!is_host_char_exec(v[he]) && v[he] != '.') {
                    if he < v.len() && v[he] == '/' {
                        let me = scan_path_end(v, he);
                        Some((he, me))
                    } else {
                        Some((he, he))
                    }
                } else {
                    None
                }
            },
            None => None,
        },
        None => None,
    }
}

fn push_replacement(out: &mut Vec<char>, k: RuleKind)
    ensures
        final(out)@ == old(out)@ + https_prefix() + repl_domain(k),
{
    out.push('h');
    out.push('t');
    out.push('t');
    out.push('p');
    out.push('s');
    out.push(':');
    out.push('/');
    out.push('/');
    match k {
        RuleKind::Twitter => {
            out.push('v');
            out.push('x');
            out.push('t');
            out.push('w');
            out.push('i');
            out.push('t');
            out.push('t');
            out.push('e');
            out.push('r');
            out.push('.');
            out.push('c');
            out.push('o');
            out.push('m');
        },
        RuleKind::Facebook => {
            out.push('f');
            out.push('a');
            out.push('c');
            out.push('e');
            out.push('b');
            out.push('e');
            out.push('d');
            out.push('.');
            out.push('c');
            out.push('o');
            out.push('m');
        },
    }
    proof {
        assert(out@ =~= old(out)@ + https_prefix() + repl_domain(k));
    }
}

/// One pass of family `k`: every non-overlapping match, scanned left to right,
/// is replaced; reports whether the body held any match of the family at all.
fn rewrite_pass(v: &Vec<char>, k: RuleKind) -> (r: (bool, Vec<char>))
    ensures
        r.1@ == rewritten(v@, k),
        r.0 == has_match(v@, k),
{
    let mut out: Vec<char> = Vec::new();
    let mut found = false;
    let mut i: usize = 0;
    while i < v.len()
        invariant
            i <= v.len(),
            out@ + rewritten_from(v@, i as int, k) == rewritten(v@, k),
            has_match(v@, k) == (found || has_match_from(v@, i as int, k)),
        decreases v.len() - i,
    {
        match scan_match(v, i, k) {
            Some(m) => {
                proof {
                    lemma_match_at_bounds(v@, i as int, k);
                }
                found = true;
                let ghost out0 = out@;
                push_replacement(&mut out, k);
                let mut j = m.0;
                while j < m.1
                    invariant
                        m.0 <= j <= m.1 <= v.len(),
                        out@ == out0 + https_prefix() + repl_domain(k) + v@.subrange(
                            m.0 as int,
                            j as int,
                        ),
                    decreases m.1 - j,
                {
                    out.push(v[j]);
                    proof {
                        assert(v@.subrange(m.0 as int, j as int + 1) =~= v@.subrange(
                            m.0 as int,
                            j as int,
                        ) + seq![v@[j as int]]);
                    }
                    j = j + 1;
                }
                proof {
                    assert(out@ =~= out0 + replacement(v@, m.0 as int, m.1 as int, k));
                    assert(out@ + rewritten_from(v@, m.1 as int, k) =~= out0 + rewritten_from(
                        v@,
                        i as int,
                        k,
                    ));
                }
                i = m.1;
            },
            None => {
                let ghost out0 = out@;
                out.push(v[i]);
                proof {
                    assert(out@ + rewritten_from(v@, i as int + 1, k) =~= out0 + rewritten_from(
                        v@,
                        i as int,
                        k,
                    ));
                }
                i = i + 1;
            },
        }
    }
    proof {
        assert(rewritten_from(v@, i as int, k) =~= Seq::<char>::empty());
        assert(out@ + Seq::<char>::empty() =~= out@);
    }
    (found, out)
}

fn chars_of(s: &str) -> (r: Vec<char>)
    ensures
        r@ == s@,
{
    let n = s.unicode_len();
    let mut v: Vec<char> = Vec::new();
    let mut i: usize = 0;
    while i < n
        invariant
            i <= n,
            n == s@.len(),
            v@ == s@.subrange(0, i as int),
        decreases n - i,
    {
        let c = s.get_char(i);
        v.push(c);
        proof {
            assert(v@ =~= s@.subrange(0, i as int + 1));
        }
        i = i + 1;
    }
    proof {
        assert(s@.subrange(0, n as int) =~= s@);
    }
    v
}

/// Relies on String::push: appends exactly the given character.
#[verifier::external_body]
fn push_char(s: &mut String, c: char)
    ensures
        final(s)@ == old(s)@ + seq![c],
{
    s.push(c);
}

fn string_of(v: &Vec<char>) -> (r: String)
    ensures
        r@ == v@,
{
    let mut s = String::new();
    let mut i: usize = 0;
    while i < v.len()
        invariant
            i <= v.len(),
            s@ == v@.subrange(0, i as int),
        decreases v.len() - i,
    {
        push_char(&mut s, v[i]);
        proof {
            assert(s@ =~= v@.subrange(0, i as int + 1));
        }
        i = i + 1;
    }
    proof {
        assert(v@.subrange(0, v.len() as int) =~= v@);
    }
    s
}

/// Rewrite every recognized social-media link in `body` to its
/// preview-friendly replacement domain, preserving each link's path and query
/// suffix verbatim and always emitting the secure scheme. Returns whether any
/// rule matched at all, together with the rewritten body; a body without a
/// recognized link comes back unchanged.
pub fn rewrite(body: &str) -> (r: (bool, String))
    ensures
        r.1@ == rewritten_all(body@),
        r.0 == spec_needs_rewrite(body@),
{
    let v = chars_of(body);
    let (found_twitter, pass1) = rewrite_pass(&v, RuleKind::Twitter);
    let (found_facebook, pass2) = rewrite_pass(&pass1, RuleKind::Facebook);
    let out = string_of(&pass2);
    (found_twitter || found_facebook, out)
}

proof fn lemma_no_match_from_unchanged(s: Seq<char>, i: int, k: RuleKind)
    requires
        0 <= i <= s.len(),
        !has_match_from(s, i, k),
    ensures
        rewritten_from(s, i, k) == s.skip(i),
    decreases s.len() - i,
{
    if i >= s.len() {
        assert(rewritten_from(s, i, k) =~= s.skip(i));
    } else {
        lemma_no_match_from_unchanged(s, i + 1, k);
        assert(rewritten_from(s, i, k) =~= s.skip(i));
    }
}

/// A pass of a family the body holds no match of leaves the body unchanged.
pub proof fn lemma_no_match_pass_unchanged(s: Seq<char>, k: RuleKind)
    requires
        !has_match(s, k),
    ensures
        rewritten(s, k) == s,
{
    lemma_no_match_from_unchanged(s, 0, k);
    assert(s.skip(0) =~= s);
}

/// The family-`k` detector fires exactly when some position of the body
/// starts a match of the family.
pub proof fn lemma_has_match_from_iff_exists(s: Seq<char>, i: int, k: RuleKind)
    requires
        0 <= i <= s.len(),
    ensures
        has_match_from(s, i, k) <==> (exists|j: int|
            i <= j < s.len() && match_at(s, j, k) is Some),
    decreases s.len() - i,
{
    if i < s.len() {
        lemma_has_match_from_iff_exists(s, i + 1, k);
        if match_at(s, i, k) is Some {
            assert(i <= i < s.len() && match_at(s, i, k) is Some);
        }
    }
}

proof fn lemma_no_match_prefix_copied(s: Seq<char>, i: int, p: int, k: RuleKind)
    requires
        0 <= i <= p <= s.len(),
        forall|j: int| i <= j < p ==> match_at(s, j, k) is None,
    ensures
        rewritten_from(s, i, k) == s.subrange(i, p) + rewritten_from(s, p, k),
    decreases p - i,
{
    if i == p {
        assert(s.subrange(i, p) =~= Seq::<char>::empty());
        assert(s.subrange(i, p) + rewritten_from(s, p, k) =~= rewritten_from(s, p, k));
    } else {
        lemma_no_match_prefix_copied(s, i + 1, p, k);
        assert(seq![s[i]] + (s.subrange(i + 1, p) + rewritten_from(s, p, k)) =~= s.subrange(i, p)
            + rewritten_from(s, p, k));
    }
}

/// A body holding exactly one match of family `k` — at position `p`, with no
/// match before it and none after its end — is rewritten to the body with
/// just that match's span replaced: the text before the match, the match's
/// path and query suffix, and the text after it are all carried over
/// verbatim, and the replaced span is the secure scheme, the replacement
/// domain, and that suffix.
pub proof fn lemma_single_match_rewrite(s: Seq<char>, p: int, k: RuleKind)
    requires
        0 <= p <= s.len(),
        match_at(s, p, k) is Some,
        forall|j: int| 0 <= j < p ==> match_at(s, j, k) is None,
        !has_match_from(s, match_at(s, p, k)->Some_0.1, k),
    ensures
        ({
            let m = match_at(s, p, k)->Some_0;
            rewritten(s, k) == s.subrange(0, p) + https_prefix() + repl_domain(k) + s.subrange(
                m.0,
                m.1,
            ) + s.skip(m.1)
        }),
{
    let m = match_at(s, p, k)->Some_0;
    lemma_match_at_bounds(s, p, k);
    lemma_no_match_prefix_copied(s, 0, p, k);
    lemma_no_match_from_unchanged(s, m.1, k);
    assert(s.subrange(0, p) + (replacement(s, m.0, m.1, k) + s.skip(m.1)) =~= s.subrange(0, p)
        + https_prefix() + repl_domain(k) + s.subrange(m.0, m.1) + s.skip(m.1));
}

/// A rewritten link's head — the secure scheme followed by a replacement
/// domain — matches no rule of either family again, whatever text follows
/// it: re-running the rewriter never rewrites a link it produced.
pub proof fn lemma_replacement_head_never_rematched(t: Seq<char>, k: RuleKind, k2: RuleKind)
    ensures
        match_at(https_prefix() + repl_domain(k) + t, 0, k2) is None,
{
    let u = https_prefix() + repl_domain(k) + t;
    assert(u[0] == 'h' && u[1] == 't' && u[2] == 't' && u[3] == 'p' && u[4] == 's' && u[5] == ':'
        && u[6] == '/' && u[7] == '/');
    match k {
        RuleKind::Twitter => {
            assert(u[8] == 'v' && u[9] == 'x' && u[10] == 't' && u[11] == 'w' && u[12] == 'i'
                && u[13] == 't' && u[14] == 't' && u[15] == 'e' && u[16] == 'r' && u[17] == '.'
                && u[18] == 'c' && u[19] == 'o' && u[20] == 'm');
            assert(domain_len_at(u, 8, k2) is None);
            assert(label_end(u, 17) == 17);
            assert(label_end(u, 16) == 17);
            assert(label_end(u, 15) == 17);
            assert(label_end(u, 14) == 17);
            assert(label_end(u, 13) == 17);
            assert(label_end(u, 12) == 17);
            assert(label_end(u, 11) == 17);
            assert(label_end(u, 10) == 17);
            assert(label_end(u, 9) == 17);
            assert(label_end(u, 8) == 17);
            assert(domain_len_at(u, 18, k2) is None);
            assert(host_end_at(u, 8, k2) is None);
        },
        RuleKind::Facebook => {
            assert(u[8] == 'f' && u[9] == 'a' && u[10] == 'c' && u[11] == 'e' && u[12] == 'b'
                && u[13] == 'e' && u[14] == 'd' && u[15] == '.' && u[16] == 'c' && u[17] == 'o'
                && u[18] == 'm');
            assert(domain_len_at(u, 8, k2) is None);
            assert(label_end(u, 15) == 15);
            assert(label_end(u, 14) == 15);
            assert(label_end(u, 13) == 15);
            assert(label_end(u, 12) == 15);
            assert(label_end(u, 11) == 15);
            assert(label_end(u, 10) == 15);
            assert(label_end(u, 9) == 15);
            assert(label_end(u, 8) == 15);
            assert(domain_len_at(u, 16, k2) is None);
            assert(host_end_at(u, 8, k2) is None);
        },
    }
}

proof fn lemma_label_end_skip(s: Seq<char>, i: int, d: int)
    requires
        0 <= i <= s.len(),
        0 <= d <= s.len() - i,
    ensures
        label_end(s.skip(i), d) == label_end(s, i + d) - i,
    decreases s.len() - i - d,
{
    if i + d < s.len() && is_host_char(s[i + d]) {
        lemma_label_end_skip(s, i, d + 1);
    }
}

proof fn lemma_path_end_skip(s: Seq<char>, i: int, d: int)
    requires
        0 <= i <= s.len(),
        0 <= d <= s.len() - i,
    ensures
        path_end(s.skip(i), d) == path_end(s, i + d) - i,
    decreases s.len() - i - d,
{
    if i + d < s.len() && !is_space_char(s[i + d]) {
        lemma_path_end_skip(s, i, d + 1);
    }
}

/// Whether a match starts at a position depends only on the body from that
/// position on.
proof fn lemma_match_at_skip(s: Seq<char>, i: int, k: RuleKind)
    requires
        0 <= i <= s.len(),
    ensures
        match match_at(s, i, k) {
            Some(m) => match_at(s.skip(i), 0, k) == Some((m.0 - i, m.1 - i)),
            None => match_at(s.skip(i), 0, k) is None,
        },
{
    let t = s.skip(i);
    assert(t.len() == s.len() - i);
    match scheme_end_at(s, i) {
        Some(se) => {
            assert(scheme_end_at(t, 0) == Some(se - i));
            lemma_label_end_skip(s, i, se - i);
            match host_end_at(s, se, k) {
                Some(he) => {
                    assert(host_end_at(t, se - i, k) == Some(he - i));
                    if he == s.len() || (!is_host_char(s[he]) && s[he] != '.') {
                        if he < s.len() && s[he] == '/' {
                            lemma_path_end_skip(s, i, he - i);
                        }
                    }
                },
                None => {
                    assert(host_end_at(t, se - i, k) is None);
                },
            }
        },
        None => {
            assert(scheme_end_at(t, 0) is None);
        },
    }
}

/// A recognized domain matches only as the whole host: the matched host is
/// the domain itself right after the scheme, or exactly one whole subdomain
/// label and then the domain, and the host is never followed by further
/// label characters or labels. A domain embedded in a longer, unrelated host
/// therefore never matches.
pub proof fn lemma_match_is_whole_host(s: Seq<char>, i: int, k: RuleKind)
    requires
        0 <= i <= s.len(),
        match_at(s, i, k) is Some,
    ensures
        ({
            let he = match_at(s, i, k)->Some_0.0;
            let se = scheme_end_at(s, i)->Some_0;
            &&& (he == s.len() || (!is_host_char(s[he]) && s[he] != '.'))
            &&& (domain_len_at(s, se, k) is Some ==> he == se + domain_len_at(s, se, k)->Some_0)
            &&& (domain_len_at(s, se, k) is None ==> ({
                let le = label_end(s, se);
                &&& le > se && le < s.len() && s[le] == '.'
                &&& domain_len_at(s, le + 1, k) is Some
                &&& he == le + 1 + domain_len_at(s, le + 1, k)->Some_0
            }))
        }),
{
}

/// A body that is one recognized link of family `k` and nothing else — the
/// match spans the whole body and no later position starts a match of family
/// `k2` — reaches a fixed point in one pass: its rewrite holds no match of
/// family `k2` anywhere, so a second run leaves it untouched.
#[verifier::rlimit(100)]
#[verifier::spinoff_prover]
pub proof fn lemma_lone_link_fixed_point(s: Seq<char>, k: RuleKind, k2: RuleKind)
    requires
        match_at(s, 0, k) is Some,
        match_at(s, 0, k)->Some_0.1 == s.len(),
        forall|j: int| 1 <= j < s.len() ==> match_at(s, j, k2) is None,
    ensures
        !has_match(rewritten(s, k), k2),
{
    let m = match_at(s, 0, k)->Some_0;
    lemma_match_at_bounds(s, 0, k);
    lemma_single_match_rewrite(s, 0, k);
    let u = rewritten(s, k);
    let tail = s.subrange(m.0, m.1);
    assert(u =~= https_prefix() + repl_domain(k) + tail);
    let hd: int = 8 + repl_domain(k).len() as int;
    lemma_replacement_head_never_rematched(tail, k, k2);
    assert(match_at(u, 0, k2) is None);
    match k {
        RuleKind::Twitter => {
            assert(u[1] == 't' && u[2] == 't' && u[3] == 'p' && u[4] == 's' && u[5] == ':' && u[6]
                == '/' && u[7] == '/' && u[8] == 'v' && u[9] == 'x' && u[10] == 't' && u[11] == 'w'
                && u[12] == 'i' && u[13] == 't' && u[14] == 't' && u[15] == 'e' && u[16] == 'r'
                && u[17] == '.' && u[18] == 'c' && u[19] == 'o' && u[20] == 'm');
            assert(forall|j: int| 1 <= j < hd ==> u[j] != 'h');
        },
        RuleKind::Facebook => {
            assert(u[1] == 't' && u[2] == 't' && u[3] == 'p' && u[4] == 's' && u[5] == ':' && u[6]
                == '/' && u[7] == '/' && u[8] == 'f' && u[9] == 'a' && u[10] == 'c' && u[11] == 'e'
                && u[12] == 'b' && u[13] == 'e' && u[14] == 'd' && u[15] == '.' && u[16] == 'c'
                && u[17] == 'o' && u[18] == 'm');
            assert(forall|j: int| 1 <= j < hd ==> u[j] != 'h');
        },
    }
    assert forall|j: int| 1 <= j < hd implies match_at(u, j, k2) is None by {
        assert(u[j] != 'h');
        assert(scheme_end_at(u, j) is None);
    }
    assert forall|j: int| hd <= j < u.len() implies match_at(u, j, k2) is None by {
        let d = j - hd;
        assert(u.skip(j) =~= s.skip(m.0 + d));
        lemma_match_at_skip(u, j, k2);
        lemma_match_at_skip(s, m.0 + d, k2);
        assert(match_at(s, m.0 + d, k2) is None);
    }
    lemma_has_match_from_iff_exists(u, 0, k2);
}

/// Whether the pattern `p` occurs in `s` starting at position `i`.
pub open spec fn occurs_at(s: Seq<char>, p: Seq<char>, i: int) -> bool {
    0 <= i && i + p.len() <= s.len() && s.subrange(i, i + p.len() as int) == p
}

/// How many positions at or after `i` start an occurrence of `p` in `s`.
pub open spec fn occ_count_from(s: Seq<char>, p: Seq<char>, i: int) -> nat
    decreases s.len() - i when 0 <= i <= s.len()
{
    if i >= s.len() {
        0
    } else {
        (if occurs_at(s, p, i) {
            1nat
        } else {
            0nat
        }) + occ_count_from(s, p, i + 1)
    }
}

/// How many positions of `s` start an occurrence of `p`.
pub open spec fn occ_count(s: Seq<char>, p: Seq<char>) -> nat {
    occ_count_from(s, p, 0)
}

proof fn lemma_count_zero_no_occurrence(s: Seq<char>, p: Seq<char>, i: int, j: int)
    requires
        p.len() > 0,
        0 <= i <= s.len(),
        i <= j,
        occ_count_from(s, p, i) == 0,
    ensures
        !occurs_at(s, p, j),
    decreases j - i,
{
    if i < s.len() && i < j {
        lemma_count_zero_no_occurrence(s, p, i + 1, j);
    }
}

proof fn lemma_count_zero_from(s: Seq<char>, p: Seq<char>, i: int)
    requires
        0 <= i <= s.len(),
        forall|j: int| j >= i ==> !occurs_at(s, p, j),
    ensures
        occ_count_from(s, p, i) == 0,
    decreases s.len() - i,
{
    if i < s.len() {
        lemma_count_zero_from(s, p, i + 1);
    }
}

proof fn lemma_count_single(s: Seq<char>, p: Seq<char>, i: int, q: int)
    requires
        p.len() > 0,
        0 <= i <= s.len(),
        i <= q,
        occurs_at(s, p, q),
        forall|j: int| j >= i && j != q ==> !occurs_at(s, p, j),
    ensures
        occ_count_from(s, p, i) == 1,
    decreases s.len() - i,
{
    if i == q {
        lemma_count_zero_from(s, p, i + 1);
    } else {
        lemma_count_single(s, p, i + 1, q);
    }
}

/// A body that is exactly one link of family `k` and holds no occurrence of
/// the family's replacement domain of its own comes out holding exactly one
/// occurrence of that replacement domain.
#[verifier::rlimit(100)]
#[verifier::spinoff_prover]
pub proof fn lemma_lone_link_one_replacement_occurrence(s: Seq<char>, k: RuleKind)
    requires
        match_at(s, 0, k) is Some,
        match_at(s, 0, k)->Some_0.1 == s.len(),
        occ_count(s, repl_domain(k)) == 0,
    ensures
        occ_count(rewritten(s, k), repl_domain(k)) == 1,
{
    let m = match_at(s, 0, k)->Some_0;
    lemma_match_at_bounds(s, 0, k);
    lemma_single_match_rewrite(s, 0, k);
    let u = rewritten(s, k);
    let dd = repl_domain(k);
    let hd: int = 8 + dd.len() as int;
    assert(u =~= https_prefix() + dd + s.subrange(m.0, m.1));
    assert(occurs_at(u, dd, 8)) by {
        assert(u.subrange(8, 8 + dd.len() as int) =~= dd);
    };
    match k {
        RuleKind::Twitter => {
            assert(u[0] == 'h' && u[1] == 't' && u[2] == 't' && u[3] == 'p' && u[4] == 's' && u[5]
                == ':' && u[6] == '/' && u[7] == '/' && u[9] == 'x' && u[10] == 't' && u[11] == 'w'
                && u[12] == 'i' && u[13] == 't' && u[14] == 't' && u[15] == 'e' && u[16] == 'r'
                && u[17] == '.' && u[18] == 'c' && u[19] == 'o' && u[20] == 'm');
            assert(forall|j: int| 0 <= j < hd && j != 8 ==> u[j] != 'v');
            assert(dd[0] == 'v');
        },
        RuleKind::Facebook => {
            assert(u[0] == 'h' && u[1] == 't' && u[2] == 't' && u[3] == 'p' && u[4] == 's' && u[5]
                == ':' && u[6] == '/' && u[7] == '/' && u[9] == 'a' && u[10] == 'c' && u[11] == 'e'
                && u[12] == 'b' && u[13] == 'e' && u[14] == 'd' && u[15] == '.' && u[16] == 'c'
                && u[17] == 'o' && u[18] == 'm');
            assert(forall|j: int| 0 <= j < hd && j != 8 ==> u[j] != 'f');
            assert(dd[0] == 'f');
        },
    }
    assert forall|j: int| j != 8 implies !occurs_at(u, dd, j) by {
        if 0 <= j && j + dd.len() <= u.len() {
            if j < hd {
                if occurs_at(u, dd, j) {
                    assert(u.subrange(j, j + dd.len() as int)[0] == u[j]);
                }
            } else {
                if occurs_at(u, dd, j) {
                    let q = m.0 + (j - hd);
                    assert(s.subrange(q, q + dd.len() as int) =~= u.subrange(
                        j,
                        j + dd.len() as int,
                    ));
                    assert(occurs_at(s, dd, q));
                    lemma_count_zero_no_occurrence(s, dd, 0, q);
                }
            }
        }
    }
    lemma_count_single(u, dd, 0, 8);
}

/// Round trip for a body that is exactly one short-name-family link: one
/// run rewrites it, and running the rewriter again on that output reports
/// nothing to do and returns it unchanged — the fixed point is reached in
/// one pass.
pub proof fn lemma_lone_primary_link_roundtrip(s: Seq<char>)
    requires
        match_at(s, 0, RuleKind::Twitter) is Some,
        match_at(s, 0, RuleKind::Twitter)->Some_0.1 == s.len(),
        forall|j: int| 1 <= j < s.len() ==> match_at(s, j, RuleKind::Twitter) is None,
        forall|j: int| 1 <= j < s.len() ==> match_at(s, j, RuleKind::Facebook) is None,
    ensures
        !spec_needs_rewrite(rewritten_all(s)),
        rewritten_all(rewritten_all(s)) == rewritten_all(s),
{
    let u = rewritten(s, RuleKind::Twitter);
    lemma_lone_link_fixed_point(s, RuleKind::Twitter, RuleKind::Twitter);
    lemma_lone_link_fixed_point(s, RuleKind::Twitter, RuleKind::Facebook);
    lemma_no_match_pass_unchanged(u, RuleKind::Facebook);
    lemma_rewrite_no_op(u);
}

/// A body with no recognized link of either family is a no-op: `rewrite`
/// reports nothing to do and returns the body unchanged.
pub proof fn lemma_rewrite_no_op(s: Seq<char>)
    requires
        !has_match(s, RuleKind::Twitter),
        !has_match(s, RuleKind::Facebook),
    ensures
        !spec_needs_rewrite(s),
        rewritten_all(s) == s,
{
    lemma_no_match_pass_unchanged(s, RuleKind::Twitter);
    lemma_no_match_pass_unchanged(s, RuleKind::Facebook);
}

} // verus!
