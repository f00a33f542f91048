//! Normalising the trailing slashes of base URLs.

use vstd::prelude::*;
use vstd::string::StrSliceExecFns;
use vstd::string::StringExecFns;
use crate::utils::IntoText;

verus! {

/// `s` with every trailing `/` removed.
pub open spec fn trim_slashes(s: Seq<char>) -> Seq<char>
    decreases s.len(),
{
    if s.len() > 0 && s.last() == '/' {
        trim_slashes(s.drop_last())
    } else {
        s
    }
}

/// The URL without any trailing slash. A `String` that has none is handed
/// back as it is, without a copy.
pub fn ensure_no_trailing_slash<S: IntoText>(url: S) -> (r: String)
    ensures
        r@ == trim_slashes(url.text()),
{
    let url = url.into_text();
    let n: usize = url.as_str().unicode_len();
    let mut k: usize = n;
    proof {
        assert(url@.take(k as int) =~= url@);
    }
    while k > 0 && url.as_str().get_char(k - 1) == '/'
        invariant
            k <= n,
            n == url@.len(),
            trim_slashes(url@) == trim_slashes(url@.take(k as int)),
        decreases k,
    {
        proof {
            assert(url@.take(k as int).drop_last() =~= url@.take(k as int - 1));
        }
        k = k - 1;
    }
    proof {
        assert(trim_slashes(url@.take(k as int)) == url@.take(k as int));
    }
    if k == n {
        url
    } else {
        url.as_str().substring_char(0, k).to_owned()
    }
}

/// The URL ending in exactly one slash.
pub fn ensure_trailing_slash<S: IntoText>(url: S) -> (r: String)
    ensures
        r@ == trim_slashes(url.text()).push('/'),
{
    let mut r = ensure_no_trailing_slash(url);
    r.append("/");
    proof {
        reveal_strlit("/");
        assert(r@ =~= trim_slashes(url.text()).push('/'));
    }
    r
}

} // verus!
