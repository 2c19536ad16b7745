use vstd::prelude::*;

verus! {

/// What the crawl reads of a URL: its serialization and its host, if any.
pub type LinkView = (Seq<char>, Option<Seq<char>>);

pub open spec fn opt_string_view(o: Option<String>) -> Option<Seq<char>> {
    match o {
        Some(s) => Some(s@),
        None => None,
    }
}

/// An absolute URL, held as its serialization and its host.
#[derive(Clone, Debug)]
pub struct Link {
    pub text: String,
    pub host: Option<String>,
}

impl View for Link {
    type V = LinkView;

    open spec fn view(&self) -> LinkView {
        (self.text@, opt_string_view(self.host))
    }
}

pub open spec fn links_view(s: Seq<Link>) -> Seq<LinkView> {
    s.map_values(|l: Link| l@)
}

/// The serialization and host of the URL that `url::Url::parse` makes of a
/// string, or `None` where the string is no URL.
pub uninterp spec fn url_parse(s: Seq<char>) -> Option<LinkView>;

/// The serialization and host of the URL that `url::Url::join` makes of a
/// reference resolved against a base URL, or `None` where it fails.
pub uninterp spec fn url_join(base: Seq<char>, reference: Seq<char>) -> Option<LinkView>;

/// Relies on `url::Url::parse`; `Url::as_str` and `Url::host_str` read the
/// result out, and the parse error's message is handed back on failure.
#[verifier::external_body]
fn parse_url(s: &str) -> (r: Result<Link, String>)
    ensures
        match r {
            Ok(l) => url_parse(s@) == Some(l@),
            Err(_) => url_parse(s@) is None,
        },
{
    match url::Url::parse(s) {
        Ok(u) => Ok(Link { text: u.as_str().to_string(), host: u.host_str().map(|h| h.to_string()) }),
        Err(e) => Err(e.to_string()),
    }
}

/// Relies on `url::Url::join`, applied to the URL that the base serialization
/// parses to; `Url::as_str` and `Url::host_str` read the result out.
#[verifier::external_body]
fn join_url(base: &str, reference: &str) -> (r: Option<Link>)
    ensures
        match r {
            Some(l) => url_join(base@, reference@) == Some(l@),
            None => url_join(base@, reference@) is None,
        },
{
    let joined = url::Url::parse(base).and_then(|b| b.join(reference));
    joined.ok().map(|u| Link { text: u.as_str().to_string(), host: u.host_str().map(|h| h.to_string()) })
}

impl Link {
    /// Parses an absolute URL; the error holds the parser's message.
    pub fn parse(s: &str) -> (r: Result<Link, String>)
        ensures
            r is Ok <==> url_parse(s@) is Some,
            r is Ok ==> url_parse(s@) == Some(r->Ok_0@),
    {
        parse_url(s)
    }

    /// Resolves `reference` (absolute or relative) against this URL.
    pub fn join(&self, reference: &str) -> (r: Option<Link>)
        ensures
            r is Some <==> url_join(self.text@, reference@) is Some,
            r is Some ==> url_join(self.text@, reference@) == Some(r->Some_0@),
    {
        join_url(self.text.as_str(), reference)
    }

    /// A copy of this link.
    pub fn duplicate(&self) -> (r: Link)
        ensures
            r@ == self@,
    {
        let host = match &self.host {
            Some(h) => Some(h.clone()),
            None => None,
        };
        Link { text: self.text.clone(), host }
    }
}

/// `needle` occurs in `hay` as a run of consecutive characters.
pub open spec fn occurs_at(hay: Seq<char>, needle: Seq<char>, i: int) -> bool {
    0 <= i && i + needle.len() <= hay.len() && hay.subrange(i, i + needle.len()) == needle
}

pub open spec fn contains_seq(hay: Seq<char>, needle: Seq<char>) -> bool {
    exists|i: int| occurs_at(hay, needle, i)
}

/// Whether `needle` occurs in `hay`; the empty string occurs in every string.
pub fn contains(hay: &str, needle: &str) -> (r: bool)
    ensures
        r == contains_seq(hay@, needle@),
{
    let n = hay.unicode_len();
    let m = needle.unicode_len();
    if m > n {
        assert forall|i: int| !occurs_at(hay@, needle@, i) by {}
        return false;
    }
    let mut i: usize = 0;
    while i <= n - m
        invariant
            n == hay@.len(),
            m == needle@.len(),
            m <= n,
            forall|k: int| 0 <= k < i ==> !occurs_at(hay@, needle@, k),
        decreases n - m + 1 - i,
    {
        let mut j: usize = 0;
        let mut same = true;
        while j < m
            invariant
                n == hay@.len(),
                m == needle@.len(),
                i + m <= n,
                j <= m,
                same == (forall|k: int| 0 <= k < j ==> hay@[i + k] == needle@[k]),
            decreases m - j,
        {
            if hay.get_char(i + j) != needle.get_char(j) {
                same = false;
            }
            j += 1;
        }
        if same {
            assert(hay@.subrange(i as int, i + m) =~= needle@);
            assert(occurs_at(hay@, needle@, i as int));
            return true;
        }
        assert(!occurs_at(hay@, needle@, i as int)) by {
            let k = choose|k: int| 0 <= k < m && hay@[i + k] != needle@[k];
            if hay@.subrange(i as int, i + m) == needle@ {
                assert(hay@.subrange(i as int, i + m)[k] == hay@[i + k]);
            }
        }
        i += 1;
    }
    assert forall|k: int| !occurs_at(hay@, needle@, k) by {
        if occurs_at(hay@, needle@, k) {
            assert(k < i);
        }
    }
    false
}

/// Whether two strings hold the same characters.
pub fn same_text(a: &str, b: &str) -> (r: bool)
    ensures
        r == (a@ == b@),
{
    let n = a.unicode_len();
    if n != b.unicode_len() {
        return false;
    }
    let mut j: usize = 0;
    while j < n
        invariant
            n == a@.len(),
            n == b@.len(),
            j <= n,
            forall|k: int| 0 <= k < j ==> a@[k] == b@[k],
        decreases n - j,
    {
        if a.get_char(j) != b.get_char(j) {
            return false;
        }
        j += 1;
    }
    assert(a@ =~= b@);
    true
}

} // verus!
