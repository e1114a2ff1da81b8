//! Model names: clients address models as `provider/model`, and the
//! provider-facing call carries only the part after the last slash.

use vstd::prelude::*;
use vstd::string::StrSliceExecFns;

verus! {

/// The provider-side name under the first configured model whose
/// client-facing name matches, if any.
pub open spec fn spec_resolve_model(models: Seq<(String, String)>, name: Seq<char>) -> Option<
    Seq<char>,
>
    decreases models.len(),
{
    if models.len() == 0 {
        None
    } else if models[0].0@ == name {
        Some(models[0].1@)
    } else {
        spec_resolve_model(models.drop_first(), name)
    }
}

/// The view of an optional string.
pub open spec fn opt_str_view(o: Option<String>) -> Option<Seq<char>> {
    match o {
        Some(s) => Some(s@),
        None => None,
    }
}

/// Resolve a client-facing model name through the configured model table to
/// the name the provider knows it by: the first matching entry wins, and an
/// unconfigured model resolves to nothing.
pub fn resolve_model(models: &Vec<(String, String)>, name: &String) -> (r: Option<String>)
    ensures
        opt_str_view(r) == spec_resolve_model(models@, name@),
{
    let n = models.len();
    let mut i: usize = 0;
    proof {
        assert(models@.skip(0) =~= models@);
    }
    while i < n
        invariant
            n == models@.len(),
            i <= n,
            spec_resolve_model(models@, name@) == spec_resolve_model(models@.skip(i as int), name@),
        decreases n - i,
    {
        proof {
            assert(models@.skip(i as int)[0] == models@[i as int]);
            assert(models@.skip(i as int).drop_first() =~= models@.skip(i as int + 1));
        }
        if models[i].0 == *name {
            return Some(models[i].1.clone());
        }
        i = i + 1;
    }
    proof {
        assert(models@.skip(n as int) =~= Seq::<(String, String)>::empty());
    }
    None
}

/// The part of `s` after its last `/`, or all of `s` when it has none.
pub open spec fn spec_model_suffix(s: Seq<char>) -> Seq<char>
    decreases s.len(),
{
    if s.len() == 0 {
        Seq::empty()
    } else if s.last() == '/' {
        Seq::empty()
    } else {
        spec_model_suffix(s.drop_last()).push(s.last())
    }
}

proof fn lemma_suffix_from_cut(s: Seq<char>, cut: int)
    requires
        0 <= cut <= s.len(),
        forall|k: int| cut <= k < s.len() ==> s[k] != '/',
        cut == 0 || s[cut - 1] == '/',
    ensures
        spec_model_suffix(s) == s.subrange(cut, s.len() as int),
    decreases s.len(),
{
    if cut == s.len() {
        assert(s.subrange(cut, s.len() as int) =~= Seq::<char>::empty());
    } else {
        assert(s.last() != '/');
        lemma_suffix_from_cut(s.drop_last(), cut);
        assert(s.drop_last().subrange(cut, s.len() - 1).push(s.last()) =~= s.subrange(
            cut,
            s.len() as int,
        ));
    }
}

/// Extract the model name from a full `provider/model` string: the part
/// after the last slash, or the whole string when it has no slash.
pub fn extract_model_from_full_name(full_name: &str) -> (r: String)
    ensures
        r@ == spec_model_suffix(full_name@),
{
    let len = full_name.unicode_len();
    let mut cut: usize = len;
    loop
        invariant
            cut <= len,
            len == full_name@.len(),
            forall|k: int| cut <= k < len ==> full_name@[k] != '/',
        ensures
            cut <= len,
            len == full_name@.len(),
            forall|k: int| cut <= k < len ==> full_name@[k] != '/',
            cut == 0 || full_name@[cut - 1] == '/',
        decreases cut,
    {
        if cut == 0 {
            break ;
        }
        if full_name.get_char(cut - 1) == '/' {
            break ;
        }
        cut = cut - 1;
    }
    proof {
        lemma_suffix_from_cut(full_name@, cut as int);
    }
    let tail = full_name.substring_char(cut, len);
    tail.to_owned()
}

} // verus!
