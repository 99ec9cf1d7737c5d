//! Requests from the panel.
use subtle::ConstantTimeEq;
use vstd::prelude::*;
use crate::text;

verus! {

/// Compares two secrets (`subtle::ConstantTimeEq::ct_eq` on byte slices): true
/// exactly when they are the same bytes.
#[verifier::external_body]
fn ct_eq(a: &[u8], b: &[u8]) -> (r: bool)
    ensures
        r == (a@ == b@),
{
    a.ct_eq(b).into()
}

/// The token in an `Authorization` header.
pub open spec fn bearer(header: Option<Seq<char>>) -> Option<Seq<char>> {
    match header {
        Some(h) => if "Bearer "@.is_prefix_of(h) {
            Some(h.skip("Bearer "@.len() as int))
        } else {
            None
        },
        None => None,
    }
}

/// Decides on a request by its `Authorization` header. A header that is
/// missing or malformed is answered 401, a wrong token 403.
pub fn require_authorization(header: Option<&str>, expected: &str) -> (r: Result<(), u16>)
    ensures
        r == (match bearer(
            match header {
                Some(h) => Some(h@),
                None => None,
            },
        ) {
            None => Err::<(), u16>(401),
            Some(t) => if t == expected@ {
                Ok(())
            } else {
                Err(403)
            },
        }),
{
    let provided = match header {
        Some(h) => match text::strip_prefix(h, "Bearer ") {
            Some(t) => t,
            None => {
                return Err(401);
            },
        },
        None => {
            return Err(401);
        },
    };
    let a = text::bytes_of(provided.as_str());
    let b = text::bytes_of(expected);
    proof {
        vstd::utf8::encode_utf8_decode_utf8(provided@);
        vstd::utf8::encode_utf8_decode_utf8(expected@);
    }
    if ct_eq(a.as_slice(), b.as_slice()) {
        Ok(())
    } else {
        Err(403)
    }
}

/// Only the daemon's own token is let through.
pub proof fn law_only_the_token_passes(header: Option<Seq<char>>, expected: Seq<char>)
    requires
        bearer(header) == Some(expected),
    ensures
        header == Some("Bearer "@ + expected),
{
    let h = header->0;
    let p = "Bearer "@;
    assert(h =~= p + h.skip(p.len() as int)) by {
        assert forall|i: int| 0 <= i < p.len() implies h[i] == p[i] by {
            assert(h.subrange(0, p.len() as int)[i] == h[i]);
        }
    }
}

/// The token of a request is what stands behind `Bearer ` in its header.
pub proof fn law_bearer(token: Seq<char>, header: Seq<char>)
    ensures
        bearer(Some("Bearer "@ + token)) == Some(token),
        bearer(None) is None,
        bearer(Some(header)) matches Some(t) ==> header == "Bearer "@ + t,
{
    let b = "Bearer "@;
    let h = b + token;
    assert(b =~= h.subrange(0, b.len() as int));
    assert(h.skip(b.len() as int) =~= token);
    if b.is_prefix_of(header) {
        assert(header =~= b + header.skip(b.len() as int)) by {
            assert(b == header.subrange(0, b.len() as int));
        }
    }
}

} // verus!
