//! Naming of the implicit credential of an endpoint: the key under which a
//! deployment stores the secret of an endpoint that comes without one.
use vstd::prelude::*;
use crate::task::{ModelConfig, TaskError};
use crate::text::{chars_of, replace_all, replaced, string_of};

verus! {

/// `c` is an ASCII letter or digit.
pub open spec fn is_ascii_alnum(c: char) -> bool {
    ('0' <= c && c <= '9') || ('A' <= c && c <= 'Z') || ('a' <= c && c <= 'z')
}

/// The ASCII letters and digits of `s`, in order.
pub open spec fn alnum_only(s: Seq<char>) -> Seq<char>
    decreases s.len(),
{
    if s.len() == 0 {
        s
    } else {
        let p = alnum_only(s.drop_last());
        if is_ascii_alnum(s.last()) {
            p.push(s.last())
        } else {
            p
        }
    }
}

pub open spec fn https_scheme() -> Seq<char> {
    seq!['h', 't', 't', 'p', 's', ':', '/', '/']
}

pub open spec fn http_scheme() -> Seq<char> {
    seq!['h', 't', 't', 'p', ':', '/', '/']
}

/// The credential name of an endpoint: its base URL without any
/// `https://` or `http://`, reduced to its ASCII letters and digits.
pub open spec fn credential_name(base_url: Seq<char>) -> Seq<char> {
    alnum_only(
        replaced(replaced(base_url, https_scheme(), Seq::empty()), http_scheme(), Seq::empty()),
    )
}

fn keep_alnum(s: &Vec<char>) -> (r: Vec<char>)
    ensures
        r@ == alnum_only(s@),
{
    let mut r: Vec<char> = Vec::new();
    let mut i: usize = 0;
    while i < s.len()
        invariant
            i <= s.len(),
            r@ == alnum_only(s@.take(i as int)),
        decreases s.len() - i,
    {
        let c = s[i];
        assert(s@.take(i + 1).drop_last() =~= s@.take(i as int));
        if ('0' <= c && c <= '9') || ('A' <= c && c <= 'Z') || ('a' <= c && c <= 'z') {
            r.push(c);
        }
        i = i + 1;
    }
    assert(s@.take(s.len() as int) =~= s@);
    r
}

/// The name under which the credential of the endpoint at `base_url` is
/// looked up when the endpoint has no explicit one.
pub fn default_credential_name(base_url: &str) -> (r: String)
    ensures
        r@ == credential_name(base_url@),
{
    let url = chars_of(base_url);
    let https = vec!['h', 't', 't', 'p', 's', ':', '/', '/'];
    let http = vec!['h', 't', 't', 'p', ':', '/', '/'];
    let none: Vec<char> = Vec::new();
    assert(https@ =~= https_scheme());
    assert(http@ =~= http_scheme());
    let a = replace_all(&url, &https, &none);
    let b = replace_all(&a, &http, &none);
    string_of(&keep_alnum(&b))
}

/// The credential of an endpoint: its explicit key when it has one, else what
/// the deployment's store holds under its credential name (`stored`), else a
/// missing-credential error that names it.
pub fn resolve_credential(model: &ModelConfig, stored: Option<String>) -> (r: Result<
    String,
    TaskError,
>)
    ensures
        model.api_key is Some ==> r == Ok::<String, TaskError>(model.api_key->0),
        model.api_key is None && stored is Some ==> r == Ok::<String, TaskError>(stored->0),
        model.api_key is None && stored is None ==> (r matches Err(
            TaskError::MissingCredential(n),
        ) && n@ == credential_name(model.base_url@)),
{
    match &model.api_key {
        Some(k) => Ok(k.clone()),
        None => match stored {
            Some(k) => Ok(k),
            None => Err(TaskError::MissingCredential(default_credential_name(model.base_url.as_str()))),
        },
    }
}

} // verus!
