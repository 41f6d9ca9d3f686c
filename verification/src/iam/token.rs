//! What a token says of its bearer.

use crate::err::{Error, ErrorView};
use crate::iam::jwt::{hs512, sign};
use crate::kvs::tx::{clone_name, name_view};
use vstd::prelude::*;

verus! {

/// The claims of a token. Every one is optional; a claim that is not
/// there is left out of the token.
#[derive(Debug, PartialEq, Eq)]
pub struct Claims {
    /// Who issued the token.
    pub iss: Option<String>,
    /// When it was issued, in seconds since the first of January 1970.
    pub iat: Option<i64>,
    /// From when it is good.
    pub nbf: Option<i64>,
    /// Until when it is good.
    pub exp: Option<i64>,
    pub ns: Option<String>,
    pub db: Option<String>,
    pub sc: Option<String>,
    /// The record that the bearer is.
    pub id: Option<String>,
}

pub struct ClaimsView {
    pub iss: Option<Seq<char>>,
    pub iat: Option<i64>,
    pub nbf: Option<i64>,
    pub exp: Option<i64>,
    pub ns: Option<Seq<char>>,
    pub db: Option<Seq<char>>,
    pub sc: Option<Seq<char>>,
    pub id: Option<Seq<char>>,
}

impl View for Claims {
    type V = ClaimsView;

    open spec fn view(&self) -> ClaimsView {
        ClaimsView {
            iss: name_view(self.iss),
            iat: self.iat,
            nbf: self.nbf,
            exp: self.exp,
            ns: name_view(self.ns),
            db: name_view(self.db),
            sc: name_view(self.sc),
            id: name_view(self.id),
        }
    }
}

impl Clone for Claims {
    fn clone(&self) -> (r: Claims)
        ensures
            r@ == self@,
    {
        Claims {
            iss: clone_name(&self.iss),
            iat: self.iat,
            nbf: self.nbf,
            exp: self.exp,
            ns: clone_name(&self.ns),
            db: clone_name(&self.db),
            sc: clone_name(&self.sc),
            id: clone_name(&self.id),
        }
    }
}

impl Default for Claims {
    /// No claim at all.
    fn default() -> (r: Claims)
        ensures
            r@ == (ClaimsView {
                iss: None,
                iat: None,
                nbf: None,
                exp: None,
                ns: None,
                db: None,
                sc: None,
                id: None,
            }),
    {
        Claims { iss: None, iat: None, nbf: None, exp: None, ns: None, db: None, sc: None, id: None }
    }
}

/// A claim with a text, where it is there.
pub open spec fn text_claim(name: Seq<char>, v: Option<Seq<char>>) -> Seq<(Seq<char>, Seq<char>)> {
    match v {
        Some(x) => seq![(name, x)],
        None => Seq::empty(),
    }
}

/// A claim with a time, where it is there.
pub open spec fn time_claim(name: Seq<char>, v: Option<i64>) -> Seq<(Seq<char>, i64)> {
    match v {
        Some(x) => seq![(name, x)],
        None => Seq::empty(),
    }
}

/// The claims with a text that are there, under their names.
pub open spec fn claim_texts(c: ClaimsView) -> Seq<(Seq<char>, Seq<char>)> {
    text_claim("iss"@, c.iss) + text_claim("ns"@, c.ns) + text_claim("db"@, c.db) + text_claim(
        "sc"@,
        c.sc,
    ) + text_claim("id"@, c.id)
}

/// The claims with a time that are there, under their names.
pub open spec fn claim_times(c: ClaimsView) -> Seq<(Seq<char>, i64)> {
    time_claim("iat"@, c.iat) + time_claim("nbf"@, c.nbf) + time_claim("exp"@, c.exp)
}

/// The token of a set of claims, signed with a secret.
pub open spec fn token_of(c: ClaimsView, secret: Seq<char>) -> Option<Seq<char>> {
    hs512(claim_texts(c), claim_times(c), secret)
}

fn put_text(out: &mut Vec<(String, String)>, name: &str, v: &Option<String>)
    ensures
        final(out).deep_view() == old(out).deep_view() + text_claim(name@, name_view(*v)),
{
    match v {
        Some(x) => {
            out.push((name.to_owned(), x.clone()));
        },
        None => {},
    }
    assert(final(out).deep_view() =~= old(out).deep_view() + text_claim(name@, name_view(*v)));
}

fn put_time(out: &mut Vec<(String, i64)>, name: &str, v: Option<i64>)
    ensures
        final(out).deep_view() == old(out).deep_view() + time_claim(name@, v),
{
    match v {
        Some(x) => {
            out.push((name.to_owned(), x));
        },
        None => {},
    }
    assert(final(out).deep_view() =~= old(out).deep_view() + time_claim(name@, v));
}

impl Claims {
    /// The token of the claims, signed with `secret`. Where signing fails
    /// the error says no more than that authentication failed.
    pub fn encode(&self, secret: &str) -> (r: Result<String, Error>)
        ensures
            match r {
                Ok(t) => token_of(self@, secret@) == Some(t@),
                Err(e) => token_of(self@, secret@) is None && e@ == ErrorView::InvalidAuth,
            },
    {
        let mut texts: Vec<(String, String)> = Vec::new();
        assert(texts.deep_view() =~= Seq::empty());
        put_text(&mut texts, "iss", &self.iss);
        put_text(&mut texts, "ns", &self.ns);
        put_text(&mut texts, "db", &self.db);
        put_text(&mut texts, "sc", &self.sc);
        put_text(&mut texts, "id", &self.id);
        assert(texts.deep_view() =~= claim_texts(self@));
        let mut times: Vec<(String, i64)> = Vec::new();
        assert(times.deep_view() =~= Seq::empty());
        put_time(&mut times, "iat", self.iat);
        put_time(&mut times, "nbf", self.nbf);
        put_time(&mut times, "exp", self.exp);
        assert(times.deep_view() =~= claim_times(self@));
        match sign(&texts, &times, secret) {
            Some(t) => Ok(t),
            None => Err(Error::InvalidAuth),
        }
    }
}

} // verus!
