//! Selection of authentication methods for deletion.
//!
//! The re-registration tool lists a user's authentication methods and
//! deletes those of the software OATH type, leaving every other type alone.

use vstd::prelude::*;
use crate::text::str_eq;

verus! {

/// One authentication method of a directory user: its type tag and its id.
#[derive(Debug)]
pub struct AuthMethod {
    pub method_type: String,
    pub id: String,
}

/// Mathematical image of an [`AuthMethod`].
pub struct MethodModel {
    pub method_type: Seq<char>,
    pub id: Seq<char>,
}

impl View for AuthMethod {
    type V = MethodModel;

    open spec fn view(&self) -> MethodModel {
        MethodModel { method_type: self.method_type@, id: self.id@ }
    }
}

impl DeepView for AuthMethod {
    type V = MethodModel;

    open spec fn deep_view(&self) -> MethodModel {
        self.view()
    }
}

/// The method type whose registrations the tool removes.
pub open spec fn spec_software_oath_type() -> Seq<char> {
    "#microsoft.graph.softwareOathAuthenticationMethod"@
}

/// Whether a method is of the type the tool deletes; every other type is
/// ignored.
pub fn is_software_oath(method_type: &str) -> (r: bool)
    ensures
        r == (method_type@ == spec_software_oath_type()),
{
    str_eq(method_type, "#microsoft.graph.softwareOathAuthenticationMethod")
}

/// The methods a decoded listing yields: each entry's type and id fields,
/// keeping the entries that carry both, in listing order.
pub open spec fn spec_method_pairs(raw: Seq<(Option<String>, Option<String>)>) -> Seq<MethodModel>
    decreases raw.len(),
{
    if raw.len() == 0 {
        Seq::empty()
    } else {
        spec_method_pairs(raw.drop_last()) + match raw.last() {
            (Some(t), Some(i)) => seq![MethodModel { method_type: t@, id: i@ }],
            _ => Seq::empty(),
        }
    }
}

/// Decodes the listing's entries into methods, dropping entries that lack
/// the type or the id field.
pub fn method_pairs(raw: &Vec<(Option<String>, Option<String>)>) -> (r: Vec<AuthMethod>)
    ensures
        r.deep_view() == spec_method_pairs(raw@),
{
    let n = raw.len();
    let mut out: Vec<AuthMethod> = Vec::new();
    let mut i: usize = 0;
    while i < n
        invariant
            n == raw@.len(),
            i <= n,
            out.deep_view() == spec_method_pairs(raw@.take(i as int)),
        decreases n - i,
    {
        let ghost pre = out.deep_view();
        match (&raw[i].0, &raw[i].1) {
            (Some(t), Some(id)) => {
                let m = AuthMethod { method_type: t.clone(), id: id.clone() };
                out.push(m);
                proof {
                    assert(out.deep_view() =~= pre.push(
                        MethodModel { method_type: t@, id: id@ },
                    ));
                }
            },
            _ => {},
        }
        proof {
            assert(raw@.take(i + 1).drop_last() =~= raw@.take(i as int));
            assert(raw@.take(i + 1).last() == raw@[i as int]);
            assert(out.deep_view() =~= spec_method_pairs(raw@.take(i + 1)));
        }
        i += 1;
    }
    proof {
        assert(raw@.take(n as int) =~= raw@);
    }
    out
}

/// The methods to delete: those of the software OATH type, in listing order.
pub open spec fn spec_selected(methods: Seq<AuthMethod>) -> Seq<MethodModel>
    decreases methods.len(),
{
    if methods.len() == 0 {
        Seq::empty()
    } else {
        spec_selected(methods.drop_last()) + if methods.last().method_type@
            == spec_software_oath_type() {
            seq![methods.last()@]
        } else {
            Seq::empty()
        }
    }
}

/// Selects the methods whose registrations the tool deletes, in listing
/// order.
pub fn select_methods_to_delete(methods: &Vec<AuthMethod>) -> (r: Vec<AuthMethod>)
    ensures
        r.deep_view() == spec_selected(methods@),
{
    let n = methods.len();
    let mut out: Vec<AuthMethod> = Vec::new();
    let mut i: usize = 0;
    while i < n
        invariant
            n == methods@.len(),
            i <= n,
            out.deep_view() == spec_selected(methods@.take(i as int)),
        decreases n - i,
    {
        let ghost pre = out.deep_view();
        if is_software_oath(methods[i].method_type.as_str()) {
            let m = AuthMethod {
                method_type: methods[i].method_type.clone(),
                id: methods[i].id.clone(),
            };
            out.push(m);
            proof {
                assert(out.deep_view() =~= pre.push(methods@[i as int]@));
            }
        }
        proof {
            assert(methods@.take(i + 1).drop_last() =~= methods@.take(i as int));
            assert(methods@.take(i + 1).last() == methods@[i as int]);
            assert(out.deep_view() =~= spec_selected(methods@.take(i + 1)));
        }
        i += 1;
    }
    proof {
        assert(methods@.take(n as int) =~= methods@);
    }
    out
}

} // verus!
