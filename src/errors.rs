//! The registry's error body: `{"errors":[{"detail":"..."}, ...]}`, one
//! detail per layer of an error's cause chain.

use vstd::prelude::*;

use crate::text::{owned, push_str, texts};

verus! {

/// The compact JSON string literal of a text.
pub uninterp spec fn json_string_of(s: Seq<char>) -> Seq<char>;

/// Relies on `serde_json::Value::String` and `Value`'s `Display` (compact
/// form): the JSON string literal of `s`, quoted and escaped.
#[verifier::external_body]
fn json_string(s: &str) -> (r: String)
    ensures
        r@ == json_string_of(s@),
{
    serde_json::Value::String(s.to_string()).to_string()
}

/// One error of an error body.
#[derive(Debug, Clone, PartialEq, Eq)]
pub struct RegistryError {
    pub detail: String,
}

/// The errors of an error body, outermost first.
#[derive(Debug, Clone, PartialEq, Eq)]
pub struct RegistryErrors {
    pub errors: Vec<RegistryError>,
}

/// `{"detail":<q>}` for each quoted detail, joined by `,`.
pub open spec fn detail_list(quoted: Seq<Seq<char>>) -> Seq<char>
    decreases quoted.len(),
{
    if quoted.len() == 0 {
        Seq::empty()
    } else if quoted.len() == 1 {
        "{\"detail\":"@ + quoted[0] + "}"@
    } else {
        detail_list(quoted.drop_last()) + ","@ + "{\"detail\":"@ + quoted.last() + "}"@
    }
}

/// `{"errors":[...]}` around the details, each already a JSON string literal.
pub open spec fn errors_body_of(quoted: Seq<Seq<char>>) -> Seq<char> {
    "{\"errors\":["@ + detail_list(quoted) + "]}"@
}

/// The error body for details that are already JSON string literals.
pub fn errors_body(quoted: &[String]) -> (r: String)
    ensures
        r@ == errors_body_of(texts(quoted@)),
{
    let ghost qv = texts(quoted@);
    let mut r = owned("{\"errors\":[");
    let mut i: usize = 0;
    assert(qv.take(0) =~= Seq::<Seq<char>>::empty());
    assert(r@ =~= "{\"errors\":["@ + detail_list(qv.take(0)));
    while i < quoted.len()
        invariant
            i <= quoted.len(),
            qv == texts(quoted@),
            r@ == "{\"errors\":["@ + detail_list(qv.take(i as int)),
        decreases quoted.len() - i,
    {
        let ghost before = r@;
        if i > 0 {
            push_str(&mut r, ",");
        }
        push_str(&mut r, "{\"detail\":");
        push_str(&mut r, quoted[i].as_str());
        push_str(&mut r, "}");
        assert(qv.take(i + 1).drop_last() =~= qv.take(i as int));
        assert(qv.take(i + 1).last() == qv[i as int]);
        assert(r@ =~= "{\"errors\":["@ + detail_list(qv.take(i + 1)));
        i = i + 1;
    }
    push_str(&mut r, "]}");
    assert(qv.take(i as int) =~= qv);
    assert(r@ =~= errors_body_of(qv));
    r
}

/// The details of an error list, in order.
pub open spec fn details_of(e: Seq<RegistryError>) -> Seq<Seq<char>> {
    e.map_values(|x: RegistryError| x.detail@)
}

impl RegistryErrors {
    /// The errors of a cause chain, one per layer, outermost first.
    pub fn from_messages(messages: Vec<String>) -> (r: RegistryErrors)
        ensures
            details_of(r.errors@) == texts(messages@),
    {
        let ghost mv = texts(messages@);
        let mut errors: Vec<RegistryError> = Vec::new();
        let mut rest = messages;
        let n = rest.len();
        let mut i: usize = 0;
        while i < n
            invariant
                i <= n,
                n == mv.len(),
                rest.len() == n - i,
                forall|k: int| 0 <= k < rest.len() ==> (#[trigger] rest@[k])@ == mv[i + k],
                details_of(errors@) == mv.take(i as int),
            decreases n - i,
        {
            let m = rest.remove(0);
            let ghost before = errors@;
            errors.push(RegistryError { detail: m });
            assert(details_of(errors@) =~= details_of(before).push(mv[i as int]));
            assert(mv.take(i + 1) =~= mv.take(i as int).push(mv[i as int]));
            i = i + 1;
            assert forall|k: int| 0 <= k < rest.len() implies (#[trigger] rest@[k])@ == mv[i + k] by {}
        }
        assert(mv.take(i as int) =~= mv);
        RegistryErrors { errors }
    }

    /// The JSON error body.
    pub fn to_json(&self) -> (r: String)
        ensures
            r@ == errors_body_of(details_of(self.errors@).map_values(|d: Seq<char>| json_string_of(d))),
    {
        let ghost dv = details_of(self.errors@);
        let mut quoted: Vec<String> = Vec::new();
        let mut i: usize = 0;
        while i < self.errors.len()
            invariant
                i <= self.errors.len(),
                dv == details_of(self.errors@),
                texts(quoted@) == dv.take(i as int).map_values(|d: Seq<char>| json_string_of(d)),
            decreases self.errors.len() - i,
        {
            let q = json_string(self.errors[i].detail.as_str());
            let ghost before = quoted@;
            quoted.push(q);
            assert(texts(quoted@) =~= texts(before).push(json_string_of(dv[i as int])));
            assert(dv.take(i + 1).map_values(|d: Seq<char>| json_string_of(d)) =~= dv.take(i as int).map_values(
                |d: Seq<char>| json_string_of(d),
            ).push(json_string_of(dv[i as int])));
            i = i + 1;
        }
        assert(dv.take(i as int) =~= dv);
        errors_body(quoted.as_slice())
    }
}

} // verus!
