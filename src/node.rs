//! Target entries and the classification of the service's paint replies.
use crate::ScriptError;
use vstd::string::StringSliceAdditionalSpecFns;
use vstd::prelude::*;

verus! {

/// One pixel: position `(x, y)` and color.
#[derive(Clone, Copy, Debug, PartialEq, Eq, Structural)]
pub struct NodeOpt {
    pub x: usize,
    pub y: usize,
    pub color: usize,
}

/// The numeric status that the service puts in a paint reply.
#[derive(Clone, Copy, Debug, PartialEq, Eq, Structural)]
pub struct Status {
    pub status: u32,
}

/// JSON whitespace.
pub open spec fn is_json_space(b: u8) -> bool {
    b == 0x20 || b == 0x09 || b == 0x0a || b == 0x0d
}

/// The bytes of `b` that are not JSON whitespace, in order.
pub open spec fn without_space(b: Seq<u8>) -> Seq<u8> {
    b.filter(|c: u8| !is_json_space(c))
}

/// The body is `[]`: once JSON whitespace is removed, it is exactly `[` then `]`.
pub open spec fn is_empty_array(b: Seq<u8>) -> bool {
    without_space(b) == seq![0x5bu8, 0x5du8]
}

/// What a paint reply means: the status 200 and the empty array are success,
/// 401 says that the credential is no longer valid, anything else is a rejection.
pub open spec fn reply_outcome(body: Seq<u8>, status: Option<Status>) -> Result<(), ScriptError> {
    match status {
        Some(s) => if s.status == 200 {
            Ok(())
        } else if s.status == 401 {
            Err(ScriptError::CookieOutdated)
        } else {
            Err(ScriptError::FailedRequest)
        },
        None => if is_empty_array(body) {
            Ok(())
        } else {
            Err(ScriptError::FailedRequest)
        },
    }
}

proof fn lemma_without_space_step(b: Seq<u8>, i: int)
    requires
        0 <= i < b.len(),
    ensures
        without_space(b.take(i + 1)) == if is_json_space(b[i]) {
            without_space(b.take(i))
        } else {
            without_space(b.take(i)).push(b[i])
        },
{
    reveal(Seq::filter);
    assert(b.take(i + 1).drop_last() =~= b.take(i));
}

/// Recognises the empty-array reply.
pub fn empty_array_reply(body: &str) -> (r: bool)
    ensures
        r == is_empty_array(body.spec_bytes()),
{
    let b = body.as_bytes();
    let ghost target = seq![0x5bu8, 0x5du8];
    // The bytes kept so far: none (0), `[` (1), `[` `]` (2), or no prefix of `[]` (3).
    let mut state: u8 = 0;
    let mut i: usize = 0;
    proof {
        reveal(Seq::filter);
        assert(b@.take(0) =~= Seq::<u8>::empty());
    }
    while i < b.len()
        invariant
            i <= b@.len(),
            b@ == body.spec_bytes(),
            target == seq![0x5bu8, 0x5du8],
            state <= 3,
            state < 3 ==> without_space(b@.take(i as int)) == target.take(state as int),
            state == 3 ==> !(without_space(b@.take(i as int)).len() <= 2
                && without_space(b@.take(i as int)) == target.take(without_space(b@.take(i as int)).len() as int)),
        decreases b@.len() - i,
    {
        let c = b[i];
        proof {
            lemma_without_space_step(b@, i as int);
        }
        let ghost prev = without_space(b@.take(i as int));
        if c == 0x20 || c == 0x09 || c == 0x0a || c == 0x0d {
        } else if state == 0 && c == 0x5b {
            state = 1;
            assert(prev.push(c) =~= target.take(1));
        } else if state == 1 && c == 0x5d {
            state = 2;
            assert(prev.push(c) =~= target.take(2));
        } else {
            proof {
                let cur = prev.push(c);
                assert(target[0] == 0x5bu8 && target[1] == 0x5du8);
                if state < 2 {
                    assert(cur[state as int] == c);
                    assert(target.take(state as int + 1)[state as int] == target[state as int]);
                } else if state == 3 {
                    if cur.len() <= 2 && cur == target.take(cur.len() as int) {
                        assert forall|k: int| 0 <= k < prev.len() implies prev[k] == target.take(prev.len() as int)[k] by {
                            assert(prev[k] == cur[k]);
                        }
                        assert(prev =~= target.take(prev.len() as int));
                    }
                }
            }
            state = 3;
        }
        i = i + 1;
    }
    proof {
        assert(b@.take(b@.len() as int) =~= b@);
        assert(target.take(2) =~= target);
        if state < 2 {
            assert(target.take(state as int).len() != target.len());
        }
    }
    state == 2
}

/// Classifies the reply to a paint request from its body and from the status
/// object read out of it (`None` where the body holds none).
pub fn classify_reply(body: &str, status: Option<Status>) -> (r: Result<(), ScriptError>)
    ensures
        r == reply_outcome(body.spec_bytes(), status),
{
    match status {
        Some(s) => {
            if s.status == 200 {
                Ok(())
            } else if s.status == 401 {
                Err(ScriptError::CookieOutdated)
            } else {
                Err(ScriptError::FailedRequest)
            }
        },
        None => {
            if empty_array_reply(body) {
                Ok(())
            } else {
                Err(ScriptError::FailedRequest)
            }
        },
    }
}

/// `s` with each occurrence of `from` replaced by `to`.
pub open spec fn replaced(s: Seq<char>, from: char, to: Seq<char>) -> Seq<char>
    decreases s.len(),
{
    if s.len() == 0 {
        Seq::empty()
    } else {
        replaced(s.drop_last(), from, to) + if s.last() == from {
            to
        } else {
            seq![s.last()]
        }
    }
}

/// Relies on `str::replace` with a `char` pattern: each occurrence of the
/// character is replaced by `to`, every other character is copied in order.
#[verifier::external_body]
fn replace_char(s: &str, from: char, to: &str) -> (r: String)
    ensures
        r@ == replaced(s@, from, to@),
{
    s.replace(from, to)
}

/// The credential token as written in a paint request's query: each `:` becomes `%3A`.
pub fn escape_token(token: &str) -> (r: String)
    ensures
        r@ == replaced(token@, ':', "%3A"@),
{
    replace_char(token, ':', "%3A")
}

} // verus!
