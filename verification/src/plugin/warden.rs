//! What becomes of a guest's request: its warden refuses it, or hands it to the
//! provider.

use crate::json::Json;
use crate::plugin::abi;
use crate::plugin::abi::HostCallRequest;
use crate::plugin::bridge;
use crate::plugin::bridge::{Passed, Warden};
use crate::text;
use crate::text::Text;
use vstd::prelude::*;
use vstd::utf8;

verus! {

/// The request that a guest's bytes are.
pub open spec fn request_in(raw: Seq<u8>) -> Option<abi::RequestModel> {
    if utf8::valid_utf8(raw) {
        abi::request_of(utf8::decode_utf8(raw))
    } else {
        None
    }
}

/// What becomes of a guest's request: it passes where it is one and the
/// manifest declares its capability verbatim.
pub open spec fn adjudicated(allowed: Seq<Text>, raw: Seq<u8>) -> Result<
    abi::RequestModel,
    Text,
> {
    match request_in(raw) {
        None => Err("host_call payload violates HostCallRequest"@),
        Some(req) => if allowed.contains(req.cap) {
            Ok(req)
        } else {
            Err("capability '"@ + req.cap + "' not declared in manifest — denied"@)
        },
    }
}

/// Whatever a guest asks for, only a capability that its manifest declares
/// reaches the bridge.
pub proof fn law_undeclared_capabilities_are_denied(allowed: Seq<Text>, raw: Seq<u8>)
    ensures
        adjudicated(allowed, raw) matches Ok(req) ==> allowed.contains(req.cap),
        request_in(raw) matches Some(req) ==> (allowed.contains(req.cap) <==> adjudicated(
            allowed,
            raw,
        ) is Ok),
{
}

/// Per-call adjudication against the signed manifest declaration.
pub fn adjudicate(allowed: &[String], raw: &[u8]) -> (r: Result<HostCallRequest, String>)
    ensures
        match adjudicated(text::texts(allowed@), raw@) {
            Ok(req) => r is Ok && r->Ok_0@ == req,
            Err(e) => r is Err && r->Err_0@ == e,
        },
{
    let parsed = match text::utf8_text(raw) {
        Some(document) => HostCallRequest::from_json(document),
        None => None,
    };
    match parsed {
        None => Err("host_call payload violates HostCallRequest".to_string()),
        Some(req) => {
            if text::has_text(allowed, req.cap.as_str()) {
                Ok(req)
            } else {
                let mut message = "capability '".to_string();
                message.append(req.cap.as_str());
                message.append("' not declared in manifest — denied");
                Err(message)
            }
        },
    }
}

/// What becomes of a guest's bytes before its warden: a request that is malformed or
/// not declared is refused and leaves no mark on the record of what was handed to the
/// provider, and any other is put on that record once, as it stands, with an answer
/// that the provider may give, which the guest gets.
pub open spec fn settled(
    before: Warden,
    raw: Seq<u8>,
    result: Result<Text, Text>,
    after: Warden,
) -> bool {
    &&& after.same_plugin(before)
    &&& match adjudicated(before.capabilities(), raw) {
        Err(e) => result == Err::<Text, Text>(e) && after.passed() == before.passed(),
        Ok(request) => before.bridge().answers(
            before.plugin(),
            request.cap,
            request.op,
            request.args,
            result,
        ) && after.passed() == before.passed().push(
            Passed { plugin: before.plugin(), request, result },
        ),
    }
}

/// Whatever a guest asks for, nothing but declared capabilities stands on the record
/// of what was handed to the provider, and no request is put there more than once.
pub proof fn law_only_declared_capabilities_are_reached(
    before: Warden,
    raw: Seq<u8>,
    result: Result<Text, Text>,
    after: Warden,
)
    requires
        settled(before, raw, result, after),
        before.upright(),
    ensures
        after.upright(),
        before.passed().is_prefix_of(after.passed()),
        after.passed().len() == before.passed().len() + (if adjudicated(
            before.capabilities(),
            raw,
        ) is Ok {
            1int
        } else {
            0
        }),
{
    assert forall|i: int| 0 <= i < after.passed().len() implies after.capabilities().contains(
        (#[trigger] after.passed()[i]).request.cap,
    ) by {
        if i < before.passed().len() {
            assert(after.passed()[i] == before.passed()[i]);
        }
    }
}

impl Warden {
    /// Answers a guest's request: refused where it is malformed or not declared,
    /// and else whatever the provider says.
    pub fn answer(&mut self, raw: &[u8]) -> (r: Result<Json, String>)
        ensures
            settled(*old(self), raw@, bridge::result_texts(r), *final(self)),
    {
        match adjudicate(self.allowed(), raw) {
            Err(e) => Err(e),
            Ok(request) => self.reach(&request),
        }
    }
}

/// A request that passes is passed on as it stands, and a refusal says why: that it is no
/// request, or which capability was not declared.
pub proof fn law_requests_pass_as_they_stand(allowed: Seq<Text>, raw: Seq<u8>)
    ensures
        request_in(raw) is None ==> adjudicated(allowed, raw) == Err::<abi::RequestModel, Text>(
            "host_call payload violates HostCallRequest"@,
        ),
        request_in(raw) matches Some(req) ==> (allowed.contains(req.cap) ==> adjudicated(
            allowed,
            raw,
        ) == Ok::<abi::RequestModel, Text>(req)),
        request_in(raw) matches Some(req) ==> (!allowed.contains(req.cap) ==> adjudicated(
            allowed,
            raw,
        ) == Err::<abi::RequestModel, Text>(
            "capability '"@ + req.cap + "' not declared in manifest — denied"@,
        )),
{
}

} // verus!
