use vstd::prelude::*;
use vstd::slice::{slice_subrange, slice_to_vec};
use crate::error::{byte_at, ParseError, SpecParsed, DOT};
use crate::lex::{ident_at, lemma_ident, spec_ident, spec_is_digit};

verus! {

/// The identifiers of the `.`-prefixed links that follow position `j`, and where
/// they end. A dot not followed by an identifier ends the chain and is not consumed.
pub open spec fn wing_tail(s: Seq<u8>, j: int) -> (Seq<Seq<u8>>, int)
    decreases s.len() - j,
{
    if byte_at(s, j, DOT) && spec_ident(s, j + 1) is Ok {
        let c = spec_ident(s, j + 1)->Ok_0.0;
        proof {
            lemma_ident(s, j + 1);
        }
        let (xs, e) = wing_tail(s, j + 1 + c);
        (seq![s.subrange(j + 1, j + 1 + c)] + xs, e)
    } else {
        (Seq::empty(), j)
    }
}

/// A wing at `i`: an identifier, then any number of `.` and an identifier; its
/// value is the list of identifiers in order.
pub open spec fn spec_wing(s: Seq<u8>, i: int) -> SpecParsed<Seq<Seq<u8>>> {
    match spec_ident(s, i) {
        Ok((c, _)) => {
            let (xs, e) = wing_tail(s, i + c);
            Ok(((e - i) as nat, seq![s.subrange(i, i + c)] + xs))
        },
        Err(e) => Err(e),
    }
}

/// A wing never starts with a digit.
pub proof fn lemma_wing_rejects_digit(s: Seq<u8>)
    requires
        s.len() > 0,
        spec_is_digit(s[0]),
    ensures
        spec_wing(s, 0) is Err,
{
}

/// Parses a wing at the start of `input`. Returns its identifiers and the rest.
pub fn wing(input: &[u8]) -> (r: Result<(Vec<Vec<u8>>, &[u8]), ParseError>)
    ensures
        match spec_wing(input@, 0) {
            Ok((n, ids)) => {
                &&& r is Ok
                &&& r->Ok_0.0.deep_view() == ids
                &&& r->Ok_0.1@ == input@.subrange(n as int, input@.len() as int)
            },
            Err(e) => r is Err && r->Err_0 == e,
        },
{
    let len = input.len();
    match ident_at(input, 0) {
        Err(e) => Err(e),
        Ok((c, _)) => {
            let ghost whole = wing_tail(input@, c as int);
            let mut ids: Vec<Vec<u8>> = Vec::new();
            let first = slice_to_vec(slice_subrange(input, 0, c));
            assert(first.deep_view() =~= first@);
            ids.push(first);
            let mut j = c;
            assert(ids.deep_view() =~= seq![input@.subrange(0, c as int)]);
            loop
                invariant
                    len == input@.len(),
                    0 < j <= len,
                    ids.deep_view() + wing_tail(input@, j as int).0 == seq![input@.subrange(0, c as int)] + whole.0,
                    wing_tail(input@, j as int).1 == whole.1,
                ensures
                    wing_tail(input@, j as int).0 == Seq::<Seq<u8>>::empty(),
                    wing_tail(input@, j as int).1 == j,
                decreases len - j,
            {
                if j < len && input[j] == DOT {
                    match ident_at(input, j + 1) {
                        Ok((c2, _)) => {
                            let ghost old_ids = ids.deep_view();
                            let ghost rest = wing_tail(input@, (j + 1 + c2) as int);
                            let x = slice_to_vec(slice_subrange(input, j + 1, j + 1 + c2));
                            assert(x.deep_view() =~= x@);
                            ids.push(x);
                            assert(ids.deep_view() =~= old_ids.push(x@));
                            assert(old_ids + (seq![x@] + rest.0) =~= ids.deep_view() + rest.0);
                            j = j + 1 + c2;
                        },
                        Err(_) => {
                            break;
                        },
                    }
                } else {
                    break;
                }
            }
            assert(ids.deep_view() =~= ids.deep_view() + wing_tail(input@, j as int).0);
            Ok((ids, slice_subrange(input, j, len)))
        },
    }
}

} // verus!
