//! Outgoing requests: a path and ordered query parameters.
use vstd::prelude::*;
use vstd::string::StringExecFns;

verus! {

/// The address that every request path is relative to.
pub const API_BASE: &'static str = "https://api.torn.com/v2";

/// A request to the upstream service, without the key that authorizes it.
#[derive(Debug, Default)]
pub struct ApiRequest {
    pub path: String,
    pub parameters: Vec<(String, String)>,
}

/// The parameters as pairs of character sequences.
pub open spec fn parameters_view(ps: Seq<(String, String)>) -> Seq<(Seq<char>, Seq<char>)> {
    ps.map_values(|p: (String, String)| (p.0@, p.1@))
}

/// `name=value` for each parameter, joined by `&`, in order.
pub open spec fn query_of(ps: Seq<(Seq<char>, Seq<char>)>) -> Seq<char>
    decreases ps.len(),
{
    if ps.len() == 0 {
        Seq::empty()
    } else {
        let prev = query_of(ps.drop_last());
        let sep = if ps.len() == 1 {
            Seq::empty()
        } else {
            seq!['&']
        };
        prev + sep + ps.last().0 + seq!['='] + ps.last().1
    }
}

/// The full address of a request.
pub open spec fn url_of(path: Seq<char>, ps: Seq<(Seq<char>, Seq<char>)>) -> Seq<char> {
    API_BASE@ + path + seq!['?'] + query_of(ps)
}

impl ApiRequest {
    /// A request for `path` with no parameters.
    pub fn new(path: String) -> (r: ApiRequest)
        ensures
            r.path@ == path@,
            r.parameters@.len() == 0,
    {
        ApiRequest { path, parameters: Vec::new() }
    }

    /// Appends a parameter after those already present.
    pub fn push_parameter(&mut self, name: String, value: String)
        ensures
            final(self).path@ == old(self).path@,
            parameters_view(final(self).parameters@) == parameters_view(old(self).parameters@).push(
                (name@, value@),
            ),
    {
        let ghost prev = self.parameters@;
        self.parameters.push((name, value));
        assert(parameters_view(self.parameters@) =~= parameters_view(prev).push((name@, value@)));
    }

    /// The address of the request: the base, the path, and the query.
    pub fn url(&self) -> (r: String)
        ensures
            r@ == url_of(self.path@, parameters_view(self.parameters@)),
    {
        let ghost ps = parameters_view(self.parameters@);
        let mut url = String::from_str(API_BASE);
        url.append(self.path.as_str());
        url.append("?");
        proof {
            reveal_strlit("?");
        }
        let mut i: usize = 0;
        while i < self.parameters.len()
            invariant
                i <= self.parameters@.len(),
                ps == parameters_view(self.parameters@),
                url@ == API_BASE@ + self.path@ + seq!['?'] + query_of(ps.subrange(0, i as int)),
            decreases self.parameters.len() - i,
        {
            let ghost before = url@;
            if i > 0 {
                url.append("&");
                proof {
                    reveal_strlit("&");
                }
            }
            let (name, value) = &self.parameters[i];
            url.append(name.as_str());
            url.append("=");
            url.append(value.as_str());
            proof {
                reveal_strlit("=");
                let sub = ps.subrange(0, i + 1);
                assert(sub.drop_last() =~= ps.subrange(0, i as int));
                assert(sub.last() == (name@, value@));
                let sep = if i == 0 {
                    Seq::<char>::empty()
                } else {
                    seq!['&']
                };
                assert(url@ =~= before + sep + name@ + seq!['='] + value@);
            }
            i = i + 1;
        }
        assert(ps.subrange(0, i as int) =~= ps);
        url
    }
}

/// The value of the authorization header for a key's secret.
pub fn authorization(secret: &str) -> (r: String)
    ensures
        r@ == "ApiKey "@ + secret@,
{
    let mut r = String::from_str("ApiKey ");
    r.append(secret);
    r
}

} // verus!
