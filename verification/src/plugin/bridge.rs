//! The way to capabilities: the provider, and the wardens from whose module alone it
//! is called.

use crate::json::Json;
use crate::plugin::abi;
use crate::plugin::abi::HostCallRequest;
use crate::text;
use crate::text::Text;
use std::sync::Arc;
use vstd::prelude::*;

verus! {

/// Business-side capability provider. The kernel routes every approved
/// `host_call` here; registering providers is how tool plugins reach real
/// hardware / local network.
pub trait HostBridge: Send + Sync {
    /// What the provider may answer to a request. Anything, unless it says
    /// otherwise.
    open spec fn answers(
        &self,
        plugin: Text,
        cap: Text,
        op: Option<Text>,
        args: Text,
        result: Result<Text, Text>,
    ) -> bool {
        true
    }

    fn call(&self, plugin: &str, cap: &str, op: Option<&str>, args: &Json) -> (r: Result<
        Json,
        String,
    >)
        ensures
            self.answers(plugin@, cap@, opt_str(op), args@, result_texts(r)),
    ;
}

/// The text of an optional string slice.
pub open spec fn opt_str(o: Option<&str>) -> Option<Text> {
    match o {
        Some(s) => Some(s@),
        None => None,
    }
}

/// The views of a host call's result.
pub open spec fn result_texts(r: Result<Json, String>) -> Result<Text, Text> {
    match r {
        Ok(j) => Ok(j@),
        Err(e) => Err(e@),
    }
}

/// Default bridge: nothing is reachable. Keeps the kernel runnable stand-alone.
pub struct NullBridge;

impl HostBridge for NullBridge {
    open spec fn answers(
        &self,
        plugin: Text,
        cap: Text,
        op: Option<Text>,
        args: Text,
        result: Result<Text, Text>,
    ) -> bool {
        result == Err::<Text, Text>("no provider registered for capability '"@ + cap + "'"@)
    }

    fn call(&self, plugin: &str, cap: &str, op: Option<&str>, args: &Json) -> (r: Result<
        Json,
        String,
    >) {
        let mut message = "no provider registered for capability '".to_string();
        message.append(cap);
        message.append("'");
        Err(message)
    }
}

/// A provider as a bridge holds it.
struct Held<B: HostBridge> {
    provider: B,
}

impl<B: HostBridge> HostBridge for Held<B> {
    closed spec fn answers(
        &self,
        plugin: Text,
        cap: Text,
        op: Option<Text>,
        args: Text,
        result: Result<Text, Text>,
    ) -> bool {
        self.provider.answers(plugin, cap, op, args, result)
    }

    fn call(&self, plugin: &str, cap: &str, op: Option<&str>, args: &Json) -> (r: Result<
        Json,
        String,
    >) {
        self.provider.call(plugin, cap, op, args)
    }
}

/// A bridge that invocations share.
pub struct Bridge {
    provider: Arc<Box<dyn HostBridge>>,
}

impl Bridge {
    /// What the provider may answer to a request.
    pub closed spec fn answers(
        &self,
        plugin: Text,
        cap: Text,
        op: Option<Text>,
        args: Text,
        result: Result<Text, Text>,
    ) -> bool {
        self.provider.answers(plugin, cap, op, args, result)
    }

    /// Nothing is reachable behind the bridge.
    pub open spec fn leads_nowhere(&self) -> bool {
        forall|plugin: Text, cap: Text, op: Option<Text>, args: Text, result: Result<Text, Text>|
            #[trigger] self.answers(plugin, cap, op, args, result) == NullBridge.answers(
                plugin,
                cap,
                op,
                args,
                result,
            )
    }

    /// The bridge to `provider`: it may answer what the provider may.
    pub fn new<B: HostBridge + 'static>(provider: B) -> (r: Self)
        ensures
            forall|
                plugin: Text,
                cap: Text,
                op: Option<Text>,
                args: Text,
                result: Result<Text, Text>,
            | #[trigger]
                r.answers(plugin, cap, op, args, result) == provider.answers(
                    plugin,
                    cap,
                    op,
                    args,
                    result,
                ),
    {
        Bridge { provider: Arc::new(Box::new(Held { provider })) }
    }
}

impl Clone for Bridge {
    fn clone(&self) -> (r: Self)
        ensures
            r == *self,
    {
        Bridge { provider: self.provider.clone() }
    }
}

/// A request that was handed to the provider, and what it answered.
pub struct Passed {
    pub plugin: Text,
    pub request: abi::RequestModel,
    pub result: Result<Text, Text>,
}

/// Every request in a record is the plugin's own, names a capability that is
/// declared, and has an answer that the provider may give to it.
pub open spec fn all_declared(
    plugin: Text,
    capabilities: Seq<Text>,
    bridge: Bridge,
    passed: Seq<Passed>,
) -> bool {
    forall|i: int|
        0 <= i < passed.len() ==> (#[trigger] passed[i]).plugin == plugin && capabilities.contains(
            passed[i].request.cap,
        ) && bridge.answers(
            plugin,
            passed[i].request.cap,
            passed[i].request.op,
            passed[i].request.args,
            passed[i].result,
        )
}

/// The warden of one plugin: its capabilities, the way to them, and the record of
/// what it handed to the provider so far. Nothing outside this module can name the
/// provider, and here only `reach` calls it and adds to the record.
pub struct Warden {
    plugin: String,
    allowed: Vec<String>,
    bridge: Bridge,
    passed: Ghost<Seq<Passed>>,
}

impl Warden {
    /// Whatever became of a guest's requests, the record holds declared ones only.
    #[verifier::type_invariant]
    pub open spec fn upright(self) -> bool {
        all_declared(self.plugin(), self.capabilities(), self.bridge(), self.passed())
    }

    /// The plugin whose warden it is.
    pub closed spec fn plugin(&self) -> Text {
        self.plugin@
    }

    /// The capabilities that the plugin may use.
    pub closed spec fn capabilities(&self) -> Seq<Text> {
        text::texts(self.allowed@)
    }

    /// The way to the provider.
    pub closed spec fn bridge(&self) -> Bridge {
        self.bridge
    }

    /// The record of what was handed to the provider so far.
    pub closed spec fn passed(&self) -> Seq<Passed> {
        self.passed@
    }

    /// The warden of the same plugin, with the same capabilities and the same way
    /// to them.
    pub open spec fn same_plugin(&self, other: Warden) -> bool {
        &&& self.plugin() == other.plugin()
        &&& self.capabilities() == other.capabilities()
        &&& self.bridge() == other.bridge()
    }

    pub fn new(plugin: &str, allowed: &[String], bridge: Bridge) -> (r: Self)
        ensures
            r.plugin() == plugin@,
            r.capabilities() == text::texts(allowed@),
            r.bridge() == bridge,
            r.passed() == Seq::<Passed>::empty(),
    {
        let ghost none = Seq::<Passed>::empty();
        Warden {
            plugin: plugin.to_string(),
            allowed: text::copy_texts(allowed),
            bridge,
            passed: Ghost(none),
        }
    }

    /// The plugin whose warden it is.
    pub(crate) fn name(&self) -> (r: &str)
        ensures
            r@ == self.plugin(),
    {
        self.plugin.as_str()
    }

    /// The capabilities that the plugin may use.
    pub(crate) fn allowed(&self) -> (r: &[String])
        ensures
            text::texts(r@) == self.capabilities(),
    {
        self.allowed.as_slice()
    }

    /// Hands a request with a declared capability to the provider. What it
    /// answers is its own affair.
    pub(crate) fn reach(&mut self, request: &HostCallRequest) -> (r: Result<Json, String>)
        requires
            old(self).capabilities().contains(request@.cap),
        ensures
            final(self).same_plugin(*old(self)),
            old(self).bridge().answers(
                old(self).plugin(),
                request@.cap,
                request@.op,
                request@.args,
                result_texts(r),
            ),
            final(self).passed() == old(self).passed().push(
                Passed { plugin: old(self).plugin(), request: request@, result: result_texts(r) },
            ),
    {
        proof {
            use_type_invariant(&*self);
        }
        let op = match &request.op {
            Some(o) => Some(o.as_str()),
            None => None,
        };
        let r = self.bridge.provider.call(
            self.plugin.as_str(),
            request.cap.as_str(),
            op,
            &request.args,
        );
        let ghost entry = Passed {
            plugin: self.plugin@,
            request: request@,
            result: result_texts(r),
        };
        self.passed = Ghost(self.passed@.push(entry));
        r
    }
}

/// Where nothing is reachable, every request is answered with an error that names the
/// capability.
pub proof fn law_without_a_provider_nothing_is_reachable(
    bridge: Bridge,
    plugin: Text,
    cap: Text,
    op: Option<Text>,
    args: Text,
    result: Result<Text, Text>,
)
    requires
        bridge.leads_nowhere(),
    ensures
        bridge.answers(plugin, cap, op, args, result) <==> result == Err::<Text, Text>(
            "no provider registered for capability '"@ + cap + "'"@,
        ),
{
}

} // verus!
