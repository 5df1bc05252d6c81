//! The resource locator codec.
//!
//! A locator names a record as `at://` followed by an authority (an actor
//! identifier beginning with `did:`), optionally a collection, and optionally
//! a record key, the three separated by `/`. Parsing and serializing are
//! exact inverses on well-formed input.
use vstd::prelude::*;
use vstd::string::StrSliceExecFns;
use vstd::string::StringExecFns;

verus! {

/// The scheme prefix every locator starts with.
pub open spec fn at_prefix() -> Seq<char> {
    seq!['a', 't', ':', '/', '/']
}

/// The prefix an authority segment must carry.
pub open spec fn did_prefix() -> Seq<char> {
    seq!['d', 'i', 'd', ':']
}

pub open spec fn has_prefix(s: Seq<char>, p: Seq<char>) -> bool {
    s.len() >= p.len() && s.subrange(0, p.len() as int) == p
}

/// Index of the first `/` in `s`, or `s.len()` when none occurs.
pub open spec fn find_slash(s: Seq<char>) -> nat
    decreases s.len(),
{
    if s.len() == 0 {
        0
    } else if s[0] == '/' {
        0
    } else {
        1 + find_slash(s.drop_first())
    }
}

/// `find_slash` is the unique index that is bounded, slash-free on its left
/// and a slash when interior.
pub proof fn lemma_find_slash_characterization(s: Seq<char>, j: nat)
    requires
        j <= s.len(),
        forall|i: int| 0 <= i < j ==> s[i] != '/',
        j < s.len() ==> s[j as int] == '/',
    ensures
        find_slash(s) == j,
    decreases s.len(),
{
    if s.len() == 0 {
    } else if s[0] == '/' {
        assert(j == 0);
    } else {
        assert(j >= 1);
        let t = s.drop_first();
        assert(forall|i: int| 0 <= i < j - 1 ==> t[i] == s[i + 1] && s[i + 1] != '/');
        lemma_find_slash_characterization(t, (j - 1) as nat);
    }
}

/// A parsed locator, by how many path segments follow the authority.
#[derive(Debug, PartialEq, Eq)]
pub enum AtUri {
    Did(String),
    DidCollection(String, String),
    DidCollectionKey(String, String, String),
}

/// The mathematical shape of a parsed locator.
pub enum AtUriView {
    Did(Seq<char>),
    DidCollection(Seq<char>, Seq<char>),
    DidCollectionKey(Seq<char>, Seq<char>, Seq<char>),
}

impl View for AtUri {
    type V = AtUriView;

    open spec fn view(&self) -> AtUriView {
        match self {
            AtUri::Did(d) => AtUriView::Did(d@),
            AtUri::DidCollection(d, c) => AtUriView::DidCollection(d@, c@),
            AtUri::DidCollectionKey(d, c, k) => AtUriView::DidCollectionKey(d@, c@, k@),
        }
    }
}

/// Why a locator was rejected.
#[derive(Debug, PartialEq, Eq)]
pub enum ParseError {
    /// The `at://` scheme prefix is missing.
    MissingScheme,
    /// The authority segment does not begin with `did:`.
    BadAuthority,
}

/// What parsing a character sequence yields: the locator variant picked by
/// the number of `/`-separated segments after the authority, or the exact
/// reason the input is rejected.
pub open spec fn spec_parse(s: Seq<char>) -> Result<AtUriView, ParseError> {
    if !has_prefix(s, at_prefix()) {
        Err(ParseError::MissingScheme)
    } else {
        let rest = s.skip(5);
        if !has_prefix(rest, did_prefix()) {
            Err(ParseError::BadAuthority)
        } else {
            let i = find_slash(rest);
            if i == rest.len() {
                Ok(AtUriView::Did(rest))
            } else {
                let did = rest.take(i as int);
                let tail = rest.skip(i as int + 1);
                let j = find_slash(tail);
                if j == tail.len() {
                    Ok(AtUriView::DidCollection(did, tail))
                } else {
                    Ok(AtUriView::DidCollectionKey(did, tail.take(j as int), tail.skip(j as int + 1)))
                }
            }
        }
    }
}

/// The exact text a locator prints as.
pub open spec fn spec_serialize(u: AtUriView) -> Seq<char> {
    match u {
        AtUriView::Did(d) => at_prefix() + d,
        AtUriView::DidCollection(d, c) => at_prefix() + d + seq!['/'] + c,
        AtUriView::DidCollectionKey(d, c, k) => at_prefix() + d + seq!['/'] + c + seq!['/'] + k,
    }
}

/// Serializing a parsed locator reproduces the input exactly.
pub proof fn lemma_parse_serialize_round_trip(s: Seq<char>)
    requires
        spec_parse(s) is Ok,
    ensures
        spec_serialize(spec_parse(s)->Ok_0) == s,
{
    let rest = s.skip(5);
    assert(s =~= at_prefix() + rest);
    let i = find_slash(rest);
    lemma_find_slash_in_bounds(rest);
    if i == rest.len() {
    } else {
        let did = rest.take(i as int);
        let tail = rest.skip(i as int + 1);
        assert(rest =~= did + seq!['/'] + tail);
        let j = find_slash(tail);
        lemma_find_slash_in_bounds(tail);
        if j == tail.len() {
            assert(at_prefix() + did + seq!['/'] + tail =~= s);
        } else {
            assert(tail =~= tail.take(j as int) + seq!['/'] + tail.skip(j as int + 1));
            assert(at_prefix() + did + seq!['/'] + (tail.take(j as int) + seq!['/'] + tail.skip(
                j as int + 1,
            )) =~= s);
            assert(at_prefix() + did + seq!['/'] + tail.take(j as int) + seq!['/'] + tail.skip(
                j as int + 1,
            ) =~= at_prefix() + did + seq!['/'] + (tail.take(j as int) + seq!['/'] + tail.skip(
                j as int + 1,
            )));
        }
    }
}

/// No `/` occurs in `s`.
pub open spec fn slash_free(s: Seq<char>) -> bool {
    forall|i: int| 0 <= i < s.len() ==> s[i] != '/'
}

/// A locator whose text parses back to itself: the authority carries its
/// prefix, and neither the authority nor the collection embeds the `/` that
/// separates segments. The record key is free: everything after the second
/// `/` belongs to it.
pub open spec fn wf_locator(u: AtUriView) -> bool {
    match u {
        AtUriView::Did(d) => has_prefix(d, did_prefix()) && slash_free(d),
        AtUriView::DidCollection(d, c) => has_prefix(d, did_prefix()) && slash_free(d)
            && slash_free(c),
        AtUriView::DidCollectionKey(d, c, k) => has_prefix(d, did_prefix()) && slash_free(d)
            && slash_free(c),
    }
}

/// Parsing a printed well-formed locator gives the locator back.
pub proof fn lemma_serialize_parse_round_trip(u: AtUriView)
    requires
        wf_locator(u),
    ensures
        spec_parse(spec_serialize(u)) == Ok::<AtUriView, ParseError>(u),
{
    let s = spec_serialize(u);
    match u {
        AtUriView::Did(d) => {
            assert(s.subrange(0, 5) =~= at_prefix());
            assert(s.skip(5) =~= d);
            assert(d.subrange(0, 4) =~= did_prefix());
            lemma_find_slash_characterization(d, d.len());
        },
        AtUriView::DidCollection(d, c) => {
            let rest = d + seq!['/'] + c;
            assert(s.subrange(0, 5) =~= at_prefix());
            assert(s.skip(5) =~= rest);
            assert(rest.subrange(0, 4) =~= d.subrange(0, 4));
            assert(rest.subrange(0, 4) =~= did_prefix());
            assert(rest[d.len() as int] == '/');
            lemma_find_slash_characterization(rest, d.len());
            assert(rest.take(d.len() as int) =~= d);
            assert(rest.skip(d.len() as int + 1) =~= c);
            lemma_find_slash_characterization(c, c.len());
        },
        AtUriView::DidCollectionKey(d, c, k) => {
            let tail = c + seq!['/'] + k;
            let rest = d + seq!['/'] + tail;
            assert(s.subrange(0, 5) =~= at_prefix());
            assert(s.skip(5) =~= rest);
            assert(rest.subrange(0, 4) =~= d.subrange(0, 4));
            assert(rest.subrange(0, 4) =~= did_prefix());
            assert(rest[d.len() as int] == '/');
            lemma_find_slash_characterization(rest, d.len());
            assert(rest.take(d.len() as int) =~= d);
            assert(rest.skip(d.len() as int + 1) =~= tail);
            assert(tail[c.len() as int] == '/');
            lemma_find_slash_characterization(tail, c.len());
            assert(tail.take(c.len() as int) =~= c);
            assert(tail.skip(c.len() as int + 1) =~= k);
        },
    }
}

/// `find_slash` stays in bounds and lands on a slash when interior.
pub proof fn lemma_find_slash_in_bounds(s: Seq<char>)
    ensures
        find_slash(s) <= s.len(),
        find_slash(s) < s.len() ==> s[find_slash(s) as int] == '/',
        forall|i: int| 0 <= i < find_slash(s) ==> s[i] != '/',
    decreases s.len(),
{
    if s.len() == 0 {
    } else if s[0] == '/' {
    } else {
        let t = s.drop_first();
        lemma_find_slash_in_bounds(t);
        assert(forall|i: int| 1 <= i < find_slash(s) ==> s[i] == t[i - 1] && t[i - 1] != '/');
    }
}

/// Finds the first `/` at or after `from` in `s`, scanning one character at
/// a time; returns `s.len()` when none occurs.
fn scan_slash(s: &str, n: usize, from: usize) -> (r: usize)
    requires
        n == s@.len(),
        from <= n,
    ensures
        from <= r <= n,
        r < n ==> s@[r as int] == '/',
        forall|i: int| from <= i < r ==> s@[i] != '/',
{
    let mut i = from;
    while i < n
        invariant
            n == s@.len(),
            from <= i <= n,
            forall|j: int| from <= j < i ==> s@[j] != '/',
        decreases n - i,
    {
        if s.get_char(i) == '/' {
            return i;
        }
        i = i + 1;
    }
    n
}

impl AtUri {
    /// Parses a locator, returning the variant that matches how many
    /// segments follow the authority, or the exact reason for rejection.
    pub fn parse(s: &str) -> (r: Result<AtUri, ParseError>)
        ensures
            match r {
                Ok(u) => spec_parse(s@) == Ok::<AtUriView, ParseError>(u@),
                Err(e) => spec_parse(s@) == Err::<AtUriView, ParseError>(e),
            },
    {
        let n = s.unicode_len();
        if n < 5 || s.get_char(0) != 'a' || s.get_char(1) != 't' || s.get_char(2) != ':'
            || s.get_char(3) != '/' || s.get_char(4) != '/' {
            assert(!has_prefix(s@, at_prefix())) by {
                if s@.len() >= 5 && s@.subrange(0, 5) == at_prefix() {
                    assert(s@[0] == 'a' && s@[1] == 't' && s@[2] == ':' && s@[3] == '/' && s@[4]
                        == '/');
                }
            }
            return Err(ParseError::MissingScheme);
        }
        assert(s@.subrange(0, 5) =~= at_prefix());
        let rest = s.substring_char(5, n);
        let rlen = n - 5;
        assert(rest@ =~= s@.skip(5));
        if rlen < 4 || rest.get_char(0) != 'd' || rest.get_char(1) != 'i' || rest.get_char(2)
            != 'd' || rest.get_char(3) != ':' {
            assert(!has_prefix(rest@, did_prefix())) by {
                if rest@.len() >= 4 && rest@.subrange(0, 4) == did_prefix() {
                    assert(rest@[0] == 'd' && rest@[1] == 'i' && rest@[2] == 'd' && rest@[3]
                        == ':');
                }
            }
            return Err(ParseError::BadAuthority);
        }
        assert(rest@.subrange(0, 4) =~= did_prefix());
        let i = scan_slash(rest, rlen, 0);
        proof {
            lemma_find_slash_characterization(rest@, i as nat);
        }
        if i == rlen {
            return Ok(AtUri::Did(rest.to_owned()));
        }
        let did = rest.substring_char(0, i).to_owned();
        let tail = rest.substring_char(i + 1, rlen);
        let tlen = rlen - i - 1;
        assert(did@ =~= rest@.take(i as int));
        assert(tail@ =~= rest@.skip(i as int + 1));
        let j = scan_slash(tail, tlen, 0);
        proof {
            lemma_find_slash_characterization(tail@, j as nat);
        }
        if j == tlen {
            return Ok(AtUri::DidCollection(did, tail.to_owned()));
        }
        let col = tail.substring_char(0, j).to_owned();
        let rkey = tail.substring_char(j + 1, tlen).to_owned();
        assert(col@ =~= tail@.take(j as int));
        assert(rkey@ =~= tail@.skip(j as int + 1));
        Ok(AtUri::DidCollectionKey(did, col, rkey))
    }

    /// Prints the locator: the exact inverse of `parse` on well-formed
    /// input.
    pub fn to_string(&self) -> (r: String)
        ensures
            r@ == spec_serialize(self@),
    {
        proof {
            reveal_strlit("at://");
            reveal_strlit("/");
        }
        let mut out = "at://".to_owned();
        assert(out@ =~= at_prefix());
        assert("/"@ =~= seq!['/']);
        match self {
            AtUri::Did(d) => {
                out.append(d.as_str());
            },
            AtUri::DidCollection(d, c) => {
                out.append(d.as_str());
                out.append("/");
                out.append(c.as_str());
                assert(out@ =~= at_prefix() + d@ + seq!['/'] + c@);
            },
            AtUri::DidCollectionKey(d, c, k) => {
                out.append(d.as_str());
                out.append("/");
                out.append(c.as_str());
                out.append("/");
                out.append(k.as_str());
                assert(out@ =~= at_prefix() + d@ + seq!['/'] + c@ + seq!['/'] + k@);
            },
        }
        out
    }
}

} // verus!
