//! Builds an HTTP-header value out of administrator-configured policy
//! entries: each name/value pair is percent-encoded and the pairs are
//! joined with `"; "`. Entries whose value is empty are left out, and an
//! empty result is reported as `None`.

use vstd::prelude::*;

verus! {

/// A character that percent-encoding passes through unchanged: an ASCII
/// alphanumeric or one of `-`, `.`, `_`, `~`.
pub open spec fn is_unreserved(c: char) -> bool {
    ('a' <= c && c <= 'z') || ('A' <= c && c <= 'Z') || ('0' <= c && c <= '9') || c == '-' || c
        == '.' || c == '_' || c == '~'
}

/// The percent-encoded form of a string, as `urlencoding::encode` returns it.
pub uninterp spec fn encode_of(s: Seq<char>) -> Seq<char>;

/// Relies on `urlencoding::encode`: it percent-encodes every UTF-8 byte of
/// the input except the unreserved ones, and its result depends on the input
/// characters alone. An input made of unreserved characters comes back
/// unchanged, and every output character is unreserved or a `%`.
#[verifier::external_body]
fn encode_component(s: &str) -> (r: String)
    ensures
        r@ == encode_of(s@),
        s@.len() == 0 ==> r@.len() == 0,
        s@.len() > 0 ==> r@.len() > 0,
        (forall|i: int| 0 <= i < s@.len() ==> is_unreserved(s@[i])) ==> r@ == s@,
        forall|i: int| 0 <= i < r@.len() ==> is_unreserved(r@[i]) || r@[i] == '%',
{
    urlencoding::encode(s).into_owned()
}

/// The separator written between two encoded pairs.
pub open spec fn sep() -> Seq<char> {
    seq![';', ' ']
}

/// The encoded form of one name/value pair: `encoded-name=encoded-value`.
pub open spec fn pair_encoded(name: Seq<char>, value: Seq<char>) -> Seq<char> {
    encode_of(name) + seq!['='] + encode_of(value)
}

/// The header text built from the pairs: the encoded forms of the pairs
/// whose value is not empty, in the order given, joined by `"; "`.
pub open spec fn header_of(pairs: Seq<(Seq<char>, Seq<char>)>) -> Seq<char>
    decreases pairs.len(),
{
    if pairs.len() == 0 {
        Seq::empty()
    } else {
        let rest = header_of(pairs.drop_last());
        let last = pairs.last();
        if last.1.len() == 0 {
            rest
        } else if rest.len() == 0 {
            pair_encoded(last.0, last.1)
        } else {
            rest + sep() + pair_encoded(last.0, last.1)
        }
    }
}

/// The views of a list of owned pairs.
pub open spec fn pair_views(pairs: Seq<(String, String)>) -> Seq<(Seq<char>, Seq<char>)> {
    pairs.map_values(|p: (String, String)| (p.0@, p.1@))
}

/// The header text is empty exactly when every pair's value is empty.
pub proof fn lemma_header_empty_iff(ps: Seq<(Seq<char>, Seq<char>)>)
    ensures
        header_of(ps).len() == 0 <==> (forall|i: int|
            0 <= i < ps.len() ==> (#[trigger] ps[i]).1.len() == 0),
    decreases ps.len(),
{
    if ps.len() > 0 {
        lemma_header_empty_iff(ps.drop_last());
        assert(forall|i: int|
            0 <= i < ps.len() - 1 ==> (#[trigger] ps[i]) == ps.drop_last()[i]);
    }
}

/// Joins the policy entries into one header value. A pair whose value is
/// empty is skipped; every kept name and value is percent-encoded; the
/// encoded pairs are joined with `"; "`. When nothing is kept the result
/// is `None`.
pub fn get_policy_header_value(pairs: &Vec<(String, String)>) -> (r: Option<String>)
    ensures
        match r {
            Some(h) => h@ == header_of(pair_views(pairs@)) && h@.len() > 0,
            None => header_of(pair_views(pairs@)).len() == 0,
        },
        (r is None) <==> (forall|i: int|
            0 <= i < pairs@.len() ==> (#[trigger] pairs@[i]).1@.len() == 0),
{
    let ghost views = pair_views(pairs@);
    let mut acc = String::new();
    let mut i: usize = 0;
    while i < pairs.len()
        invariant
            i <= pairs.len(),
            views == pair_views(pairs@),
            acc@ == header_of(views.take(i as int)),
        decreases pairs.len() - i,
    {
        let p = &pairs[i];
        proof {
            assert(views.take(i + 1).drop_last() =~= views.take(i as int));
        }
        if !p.1.as_str().is_empty() {
            proof {
                reveal_strlit("; ");
                reveal_strlit("=");
                assert("; "@ =~= sep());
                assert("="@ =~= seq!['=']);
            }
            let ghost acc0 = acc@;
            if !acc.as_str().is_empty() {
                acc.append("; ");
            }
            let en = encode_component(p.0.as_str());
            acc.append(en.as_str());
            acc.append("=");
            let ev = encode_component(p.1.as_str());
            acc.append(ev.as_str());
            proof {
                if acc0.len() == 0 {
                    assert(acc@ =~= pair_encoded(p.0@, p.1@));
                } else {
                    assert(acc@ =~= acc0 + sep() + pair_encoded(p.0@, p.1@));
                }
            }
        }
        i += 1;
    }
    proof {
        assert(views.take(pairs@.len() as int) =~= views);
        lemma_header_empty_iff(views);
        assert(forall|i: int|
            0 <= i < pairs@.len() ==> views[i] == ((#[trigger] pairs@[i]).0@, pairs@[i].1@));
    }
    if acc.as_str().is_empty() {
        None
    } else {
        Some(acc)
    }
}

} // verus!
