use vstd::prelude::*;

use vstd::string::StrSliceExecFns;

use crate::caller::{RpcCallerError, RpcErrorCode, RpcTransportState, SpecCallerError};

verus! {

/// The name of the local socket of the test called `name`.
pub fn temp_socket_name(name: &str) -> (s: String)
    ensures
        s@ == "muxio-ipc-test-"@ + name@,
{
    String::from_str("muxio-ipc-test-").concat(name)
}

fn bytes_equal(a: &[u8], b: &[u8]) -> (eq: bool)
    ensures
        eq == (a@ == b@),
{
    if a.len() != b.len() {
        return false;
    }
    let mut i: usize = 0;
    while i < a.len()
        invariant
            a.len() == b.len(),
            i <= a.len(),
            forall|j: int| 0 <= j < i ==> a@[j] == b@[j],
        decreases a.len() - i,
    {
        if a[i] != b[i] {
            return false;
        }
        i = i + 1;
    }
    assert(a@ =~= b@);
    true
}

/// Whether a call succeeded with exactly the expected bytes.
pub fn rpc_success_matches(result: &Result<Vec<u8>, RpcCallerError>, expected: &Vec<u8>) -> (ok: bool)
    ensures
        ok == (result matches Ok(v) && v@ == expected@),
{
    match result {
        Ok(v) => bytes_equal(v.as_slice(), expected.as_slice()),
        Err(_) => false,
    }
}

/// Asserts that a call succeeded with exactly the expected bytes: it may
/// only be called on such a result, and returns normally.
pub fn assert_rpc_success(result: &Result<Vec<u8>, RpcCallerError>, expected: &Vec<u8>)
    requires
        result matches Ok(v) && v@ == expected@,
{
    let ok = rpc_success_matches(result, expected);
    assert(ok);
}

/// Whether a state handler received exactly the expected states, in order.
pub fn state_changes_match(
    received_states: &[RpcTransportState],
    expected: &[RpcTransportState],
) -> (ok: bool)
    ensures
        ok == (received_states@ == expected@),
{
    if received_states.len() != expected.len() {
        return false;
    }
    let mut i: usize = 0;
    while i < received_states.len()
        invariant
            received_states.len() == expected.len(),
            i <= received_states.len(),
            forall|j: int| 0 <= j < i ==> received_states@[j] == expected@[j],
        decreases received_states.len() - i,
    {
        if received_states[i] != expected[i] {
            return false;
        }
        i = i + 1;
    }
    assert(received_states@ =~= expected@);
    true
}

/// Asserts that a state handler received exactly the expected states, in
/// order: it may only be called on such states, and returns normally.
pub fn assert_state_change_handler_called(
    received_states: &[RpcTransportState],
    expected: &[RpcTransportState],
)
    requires
        received_states@ == expected@,
{
    let ok = state_changes_match(received_states, expected);
    assert(ok);
}


/// Whether `needle` occurs in `hay`.
pub open spec fn spec_contains(hay: Seq<char>, needle: Seq<char>) -> bool {
    exists|i: int|
        0 <= i && i + needle.len() <= hay.len() && #[trigger] hay.subrange(i, i + needle.len())
            == needle
}

fn chars_of(s: &str) -> (v: Vec<char>)
    ensures
        v@ == s@,
{
    let n = s.unicode_len();
    let mut v: Vec<char> = Vec::new();
    let mut i: usize = 0;
    while i < n
        invariant
            n == s@.len(),
            i <= n,
            v@ == s@.subrange(0, i as int),
        decreases n - i,
    {
        v.push(s.get_char(i));
        i = i + 1;
        assert(v@ =~= s@.subrange(0, i as int));
    }
    assert(s@.subrange(0, n as int) =~= s@);
    v
}

fn occurs_at(hay: &Vec<char>, needle: &Vec<char>, i: usize) -> (b: bool)
    requires
        i + needle.len() <= hay.len(),
    ensures
        b == (hay@.subrange(i as int, i + needle.len()) == needle@),
{
    let mut k: usize = 0;
    while k < needle.len()
        invariant
            i + needle.len() <= hay.len(),
            k <= needle.len(),
            forall|j: int| 0 <= j < k ==> hay@[i + j] == needle@[j],
        decreases needle.len() - k,
    {
        if hay[i + k] != needle[k] {
            assert(hay@.subrange(i as int, i + needle.len())[k as int] != needle@[k as int]);
            return false;
        }
        k = k + 1;
    }
    assert(hay@.subrange(i as int, i + needle.len()) =~= needle@);
    true
}

/// Whether `needle` occurs in `hay`.
pub fn contains_text(hay: &str, needle: &str) -> (b: bool)
    ensures
        b == spec_contains(hay@, needle@),
{
    let h = chars_of(hay);
    let n = chars_of(needle);
    if n.len() == 0 {
        assert(hay@.subrange(0int, 0int + needle@.len()) =~= needle@);
        return true;
    }
    let mut i: usize = 0;
    while i <= h.len() && n.len() <= h.len() - i
        invariant
            h@ == hay@,
            n@ == needle@,
            n.len() >= 1,
            i <= h.len(),
            forall|j: int| 0 <= j < i ==> #[trigger] h@.subrange(j, j + n@.len()) != n@,
        decreases h.len() - i,
    {
        if occurs_at(&h, &n, i) {
            assert(hay@.subrange(i as int, i + needle@.len()) == needle@);
            return true;
        }
        i = i + 1;
    }
    proof {
        assert forall|j: int| 0 <= j && j + needle@.len() <= hay@.len() implies #[trigger] hay@.subrange(
            j,
            j + needle@.len(),
        ) != needle@ by {
            assert(j < i);
        }
    }
    false
}

/// Whether a call failed with an error from the serving side that has the
/// expected code and whose text contains the expected words.
pub fn rpc_error_matches(
    result: &Result<Vec<u8>, RpcCallerError>,
    expected_code: RpcErrorCode,
    expected_message_substring: &str,
) -> (ok: bool)
    ensures
        ok == (result matches Err(e) && e@ matches SpecCallerError::Rpc(code, message)
            && code == expected_code && spec_contains(message, expected_message_substring@)),
{
    match result {
        Err(RpcCallerError::Rpc(payload)) => {
            payload.code == expected_code && contains_text(
                payload.message.as_str(),
                expected_message_substring,
            )
        },
        _ => false,
    }
}

/// Asserts that a call failed with an error from the serving side that has
/// the expected code and whose text contains the expected words: it may
/// only be called on such a result, and returns normally.
pub fn assert_rpc_error(
    result: &Result<Vec<u8>, RpcCallerError>,
    expected_code: RpcErrorCode,
    expected_message_substring: &str,
)
    requires
        result matches Err(e) && e@ matches SpecCallerError::Rpc(code, message) && code
            == expected_code && spec_contains(message, expected_message_substring@),
{
    let ok = rpc_error_matches(result, expected_code, expected_message_substring);
    assert(ok);
}

/// Whether a call failed because the serving side has no such method.
pub fn is_method_not_found(result: &Result<Vec<u8>, RpcCallerError>) -> (ok: bool)
    ensures
        ok == (result matches Err(e) && e@ matches SpecCallerError::Rpc(code, _) && code
            == RpcErrorCode::NotFound),
{
    match result {
        Err(RpcCallerError::Rpc(payload)) => payload.code == RpcErrorCode::NotFound,
        _ => false,
    }
}

/// Asserts that a call failed because the serving side has no such method:
/// it may only be called on such a result, and returns normally.
pub fn assert_method_not_found_error(result: &Result<Vec<u8>, RpcCallerError>)
    requires
        result matches Err(e) && e@ matches SpecCallerError::Rpc(code, _) && code
            == RpcErrorCode::NotFound,
{
    let ok = is_method_not_found(result);
    assert(ok);
}

} // verus!
