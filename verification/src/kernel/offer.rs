//! Which plugins are there for what: the tools that the model is told of, the hooks that
//! run at a point, and the strategy that is asked.

use crate::kernel::model;
use crate::kernel::model::{KernelModel, SettingsModel};
use crate::names;
use crate::plugin::manifest::PluginKind;
use crate::plugin::native;
use crate::plugin::native::Natives;
use crate::plugin::registry;
use crate::plugin::registry::{
    PluginDir, PluginModel, Plugins, ScanModel, SkipModel, TrustModel,
};
use crate::text;
use crate::text::Text;
use vstd::prelude::*;

verus! {

// Lists.

/// A list of tools in the prompt is put together of its parts: a list, then a comma, and
/// then the other; and the list of one tool is its name.
pub proof fn law_tool_lists_join(a: Seq<Text>, b: Seq<Text>)
    ensures
        a.len() > 0 && b.len() > 0 ==> model::comma_list(a + b) == model::comma_list(a) + ", "@
            + model::comma_list(b),
        a.len() == 1 ==> model::comma_list(a) == a[0],
        a.len() == 0 ==> model::comma_list(a) == Seq::<char>::empty(),
    decreases b.len(),
{
    if a.len() > 0 && b.len() > 0 {
        let front = b.drop_last();
        assert((a + b).drop_last() =~= a + front);
        assert((a + b).last() == b.last());
        if front.len() == 0 {
            assert(a + front =~= a);
        } else {
            law_tool_lists_join(a, front);
        }
        assert(model::comma_list(a + b) =~= model::comma_list(a) + ", "@ + model::comma_list(b));
    }
}

/// Every tool of the list is named in the prompt, between brackets or commas, and the
/// prompt tells what to do with it.
pub proof fn law_the_prompt_names_every_tool(tools: Seq<Text>, i: int)
    requires
        0 <= i < tools.len(),
    ensures
        exists|before: Text, after: Text| #[trigger]
            named_between(before, tools[i], after) == model::prompt_for(tools) && (ends_with(
                before,
                "["@,
            ) || ends_with(before, ", "@)) && ("]. If no tool fits, use reply."@.is_prefix_of(after)
                || ", "@.is_prefix_of(after)),
{
    let a = tools.take(i);
    let b = tools.skip(i + 1);
    let name = seq![tools[i]];
    let head = "You are an edge device agent. Reply with ONE JSON object and nothing else.\nEither {\"reply\": \"<text>\"} to answer the user,\nor {\"tool\": \"<name>\", \"args\": {...}} to act.\nAvailable tools: ["@;
    let tail = "]. If no tool fits, use reply."@;
    let before = if i == 0 {
        head
    } else {
        head + model::comma_list(a) + ", "@
    };
    let after = if i == tools.len() - 1 {
        tail
    } else {
        ", "@ + model::comma_list(b) + tail
    };
    reveal_strlit("[");
    reveal_strlit(
        "You are an edge device agent. Reply with ONE JSON object and nothing else.\nEither {\"reply\": \"<text>\"} to answer the user,\nor {\"tool\": \"<name>\", \"args\": {...}} to act.\nAvailable tools: [",
    );
    law_tool_lists_join(name, b);
    if i == 0 {
        assert(head.skip(head.len() - 1) =~= "["@);
        if b.len() == 0 {
            assert(tools =~= name);
        } else {
            assert(tools =~= name + b);
        }
    } else {
        assert(before.skip(before.len() - ", "@.len()) =~= ", "@);
        law_tool_lists_join(a, name);
        law_tool_lists_join(a + name, b);
        if b.len() == 0 {
            assert(tools =~= a + name);
        } else {
            assert(tools =~= a + name + b);
        }
    }
    assert(tail =~= tail.take(tail.len() as int));
    assert((", "@ + model::comma_list(b) + tail).take(", "@.len() as int) =~= ", "@);
    assert(named_between(before, tools[i], after) =~= model::prompt_for(tools));
}

/// A name in a text.
pub open spec fn named_between(before: Text, name: Text, after: Text) -> Text {
    before + name + after
}

pub open spec fn ends_with(t: Text, end: Text) -> bool {
    t.len() >= end.len() && t.skip(t.len() - end.len()) == end
}

/// The prompt tells the model what to answer with, and closes with what to do where no
/// tool fits; between stand the tools, and nothing else.
pub proof fn law_the_prompt_tells_what_to_answer(tools: Seq<Text>)
    ensures
        ({
            let head = "You are an edge device agent. Reply with ONE JSON object and nothing else.\nEither {\"reply\": \"<text>\"} to answer the user,\nor {\"tool\": \"<name>\", \"args\": {...}} to act.\nAvailable tools: ["@;
            let tail = "]. If no tool fits, use reply."@;
            let prompt = model::prompt_for(tools);
            &&& head.is_prefix_of(prompt)
            &&& ends_with(prompt, tail)
            &&& prompt.len() == head.len() + model::comma_list(tools).len() + tail.len()
        }),
{
    let head = "You are an edge device agent. Reply with ONE JSON object and nothing else.\nEither {\"reply\": \"<text>\"} to answer the user,\nor {\"tool\": \"<name>\", \"args\": {...}} to act.\nAvailable tools: ["@;
    let tail = "]. If no tool fits, use reply."@;
    let prompt = model::prompt_for(tools);
    assert(prompt.take(head.len() as int) =~= head);
    assert(prompt.skip(prompt.len() - tail.len()) =~= tail);
}

// Who is on a list.

proof fn lemma_names_where<T>(s: Seq<(Text, T)>, wanted: spec_fn((Text, T)) -> bool, name: Text)
    ensures
        names::names_where(s, wanted).contains(name) <==> exists|i: int|
            0 <= i < s.len() && (#[trigger] s[i]).0 == name && wanted(s[i]),
    decreases s.len(),
{
    if s.len() > 0 {
        let front = s.drop_last();
        let n = s.len() - 1;
        lemma_names_where(front, wanted, name);
        let list = names::names_where(front, wanted);
        if list.contains(name) {
            let i = choose|i: int|
                0 <= i < front.len() && (#[trigger] front[i]).0 == name && wanted(front[i]);
            assert(s[i] == front[i]);
            let at = list.index_of(name);
            assert(names::names_where(s, wanted)[at] == name);
        }
        if wanted(s[n]) {
            assert(names::names_where(s, wanted)[list.len() as int] == s[n].0);
        }
        if exists|i: int| 0 <= i < s.len() && (#[trigger] s[i]).0 == name && wanted(s[i]) {
            let i = choose|i: int| 0 <= i < s.len() && (#[trigger] s[i]).0 == name && wanted(s[i]);
            if i < n {
                assert(front[i] == s[i]);
            }
        }
        if names::names_where(s, wanted).contains(name) && !list.contains(name) {
            let at = names::names_where(s, wanted).index_of(name);
            if at < list.len() {
                assert(list[at] == name);
            }
            assert(s[n].0 == name && wanted(s[n]));
        }
    }
}

/// The native plugin that is found is the one that is wanted.
proof fn lemma_natives_where(
    s: Natives,
    wanted: spec_fn((Text, native::NativeModel)) -> bool,
    name: Text,
)
    requires
        names::ascending(s),
    ensures
        names::names_where(s, wanted).contains(name) <==> names::find(s, name) is Some
            && wanted((name, names::find(s, name)->0)),
{
    lemma_names_where(s, wanted, name);
    if exists|i: int| 0 <= i < s.len() && (#[trigger] s[i]).0 == name && wanted(s[i]) {
        let i = choose|i: int| 0 <= i < s.len() && (#[trigger] s[i]).0 == name && wanted(s[i]);
        names::lemma_find_at(s, i);
    }
    if names::find(s, name) is Some {
        let i = names::lemma_found(s, name);
        assert(s[i].0 == name);
    }
}

proof fn lemma_unshadowed(natives: Natives, list: Seq<Text>, name: Text)
    ensures
        model::unshadowed(natives, list).contains(name) <==> list.contains(name) && names::find(
            natives,
            name,
        ) is None,
    decreases list.len(),
{
    if list.len() > 0 {
        let front = list.drop_last();
        let kept = model::unshadowed(natives, front);
        let all = model::unshadowed(natives, list);
        lemma_unshadowed(natives, front, name);
        if front.contains(name) {
            let i = front.index_of(name);
            assert(list[i] == name);
        }
        if list.contains(name) && !front.contains(name) {
            let i = list.index_of(name);
            if i < front.len() {
                assert(front[i] == name);
            }
            assert(list.last() == name);
        }
        assert(list[list.len() - 1] == list.last());
        if kept.contains(name) {
            let i = kept.index_of(name);
            assert(all[i] == name);
        }
        if names::find(natives, list.last()) is None {
            assert(all[kept.len() as int] == list.last());
        }
        if all.contains(name) && !kept.contains(name) {
            let i = all.index_of(name);
            if i < kept.len() {
                assert(kept[i] == name);
            }
        }
    }
}

proof fn lemma_callable(settings: SettingsModel, list: Seq<Text>, name: Text)
    ensures
        settings.callable(list).contains(name) <==> list.contains(name)
            && settings.repair_plugin != Some(name) && settings.infer_plugin != Some(name),
    decreases list.len(),
{
    if list.len() > 0 {
        let front = list.drop_last();
        let kept = settings.callable(front);
        let all = settings.callable(list);
        lemma_callable(settings, front, name);
        if front.contains(name) {
            let i = front.index_of(name);
            assert(list[i] == name);
        }
        if list.contains(name) && !front.contains(name) {
            let i = list.index_of(name);
            if i < front.len() {
                assert(front[i] == name);
            }
            assert(list.last() == name);
        }
        assert(list[list.len() - 1] == list.last());
        if kept.contains(name) {
            let i = kept.index_of(name);
            assert(all[i] == name);
        }
        if !settings.reserved(list.last()) {
            assert(all[kept.len() as int] == list.last());
        }
        if all.contains(name) && !kept.contains(name) {
            let i = all.index_of(name);
            if i < kept.len() {
                assert(kept[i] == name);
            }
        }
    }
}

/// The wasm plugins that are wanted are listed under the names of their manifests.
proof fn lemma_called(s: Plugins, wanted: spec_fn((Text, PluginModel)) -> bool, name: Text)
    ensures
        registry::called(s, wanted).contains(name) <==> exists|i: int|
            0 <= i < s.len() && wanted(#[trigger] s[i]) && s[i].1.manifest.name == name,
{
    let list = registry::by_name(s, wanted);
    let all = registry::called(s, wanted);
    registry::law_plugins_are_listed_by_name(s, wanted);
    if all.contains(name) {
        let at = all.index_of(name);
        assert(all[at] == list[at].manifest.name);
        assert(list.contains(list[at]));
        let i = choose|i: int| 0 <= i < s.len() && wanted(#[trigger] s[i]) && s[i].1 == list[at];
        assert(s[i].1.manifest.name == name);
    }
    if exists|i: int|
        0 <= i < s.len() && wanted(#[trigger] s[i]) && s[i].1.manifest.name == name {
        let i = choose|i: int|
            0 <= i < s.len() && wanted(#[trigger] s[i]) && s[i].1.manifest.name == name;
        assert(list.contains(s[i].1));
        let at = list.index_of(s[i].1);
        assert(all[at] == name);
    }
}

/// Every wasm plugin is kept under the name that its manifest gives it.
pub open spec fn well_named(s: Plugins) -> bool {
    forall|i: int| 0 <= i < s.len() ==> (#[trigger] s[i]).1.manifest.name == s[i].0
}

/// The wasm plugin that is found is the one that is wanted.
proof fn lemma_plugins_where(
    s: Plugins,
    wanted: spec_fn((Text, PluginModel)) -> bool,
    name: Text,
)
    requires
        names::ascending(s),
        well_named(s),
    ensures
        registry::called(s, wanted).contains(name) <==> names::find(s, name) is Some
            && wanted((name, names::find(s, name)->0)),
{
    lemma_called(s, wanted, name);
    if exists|i: int|
        0 <= i < s.len() && wanted(#[trigger] s[i]) && s[i].1.manifest.name == name {
        let i = choose|i: int|
            0 <= i < s.len() && wanted(#[trigger] s[i]) && s[i].1.manifest.name == name;
        names::lemma_find_at(s, i);
    }
    if names::find(s, name) is Some {
        let i = names::lemma_found(s, name);
        assert(s[i].1.manifest.name == name);
    }
}

proof fn lemma_joined(a: Seq<Text>, b: Seq<Text>, name: Text)
    ensures
        (a + b).contains(name) <==> a.contains(name) || b.contains(name),
{
    let all = a + b;
    if a.contains(name) {
        assert(all[a.index_of(name)] == name);
    }
    if b.contains(name) {
        assert(all[a.len() + b.index_of(name)] == name);
    }
    if all.contains(name) {
        let i = all.index_of(name);
        if i < a.len() {
            assert(a[i] == name);
        } else {
            assert(b[i - a.len()] == name);
        }
    }
}

proof fn lemma_arranged(s: Seq<Text>, name: Text)
    ensures
        text::arranged(s).contains(name) <==> s.contains(name),
{
    text::lemma_arranged(s);
    broadcast use vstd::seq_lib::group_to_multiset_ensures;

    assert(text::arranged(s).to_multiset().count(name) == s.to_multiset().count(name));
}

/// The plugin that has a name: the native one, and the wasm one where there is none.
pub open spec fn kind_of(k: KernelModel, name: Text) -> Option<PluginKind> {
    match names::find(k.natives, name) {
        Some(e) => Some(e.kind),
        None => match names::find(k.plugins, name) {
            Some(p) => Some(p.manifest.kind),
            None => None,
        },
    }
}

/// The points that a hook attaches to.
pub open spec fn points_of(k: KernelModel, name: Text) -> Seq<Text> {
    match names::find(k.natives, name) {
        Some(e) => e.hooks,
        None => match names::find(k.plugins, name) {
            Some(p) => p.manifest.hooks,
            None => seq![],
        },
    }
}

/// The model is told of every tool that it can call, and of no other: the plugin under
/// that name is a tool, and the kernel does not keep it for itself. The names ascend.
pub proof fn law_the_model_is_told_of_what_it_can_call(k: KernelModel, name: Text)
    requires
        names::ascending(k.natives),
        names::ascending(k.plugins),
        well_named(k.plugins),
    ensures
        k.tools().contains(name) <==> k.tool_devices(name) is Some,
        k.tools().contains(name) <==> kind_of(k, name) == Some(PluginKind::Tool)
            && k.settings.repair_plugin != Some(name) && k.settings.infer_plugin != Some(name),
        text::sorted(k.tools()),
{
    let natives = names::names_where(k.natives, native::of_kind(PluginKind::Tool));
    let loaded = registry::called(k.plugins, registry::of_kind(PluginKind::Tool));
    let shown = model::unshadowed(k.natives, loaded);
    lemma_natives_where(k.natives, native::of_kind(PluginKind::Tool), name);
    lemma_plugins_where(k.plugins, registry::of_kind(PluginKind::Tool), name);
    lemma_unshadowed(k.natives, loaded, name);
    lemma_joined(natives, shown, name);
    lemma_callable(k.settings, natives + shown, name);
    lemma_arranged(k.settings.callable(natives + shown), name);
    text::lemma_arranged(k.settings.callable(natives + shown));
}

/// Native tools are offered whatever is loaded: the name of every native tool that the
/// kernel does not keep for itself is on the list.
pub proof fn law_every_native_tool_is_offered(k: KernelModel, i: int)
    requires
        0 <= i < k.natives.len(),
        k.natives[i].1.kind == PluginKind::Tool,
        k.settings.repair_plugin != Some(k.natives[i].0),
        k.settings.infer_plugin != Some(k.natives[i].0),
    ensures
        k.tools().contains(k.natives[i].0),
{
    let name = k.natives[i].0;
    let natives = names::names_where(k.natives, native::of_kind(PluginKind::Tool));
    let loaded = registry::called(k.plugins, registry::of_kind(PluginKind::Tool));
    let shown = model::unshadowed(k.natives, loaded);
    lemma_names_where(k.natives, native::of_kind(PluginKind::Tool), name);
    lemma_joined(natives, shown, name);
    lemma_callable(k.settings, natives + shown, name);
    lemma_arranged(k.settings.callable(natives + shown), name);
}

/// A tool occupies what it declares: a native one the devices that it was registered
/// with, a wasm one those of its capabilities that are devices.
pub proof fn law_tools_occupy_what_they_declare(k: KernelModel, name: Text, device: Text)
    requires
        k.tool_devices(name) is Some,
    ensures
        names::find(k.natives, name) matches Some(e) ==> k.tool_devices(name)->0 == e.devices,
        names::find(k.natives, name) is None ==> names::find(k.plugins, name) is Some && (
        k.tool_devices(name)->0.contains(device) <==> names::find(
            k.plugins,
            name,
        )->0.manifest.capabilities.contains(device) && "device:"@.is_prefix_of(device)),
{
    if names::find(k.natives, name) is None {
        lemma_devices(names::find(k.plugins, name)->0.manifest.capabilities, device);
    }
}

proof fn lemma_devices(list: Seq<Text>, name: Text)
    ensures
        model::devices_in(list).contains(name) <==> list.contains(name)
            && "device:"@.is_prefix_of(name),
    decreases list.len(),
{
    if list.len() > 0 {
        let front = list.drop_last();
        let kept = model::devices_in(front);
        let all = model::devices_in(list);
        lemma_devices(front, name);
        if front.contains(name) {
            let i = front.index_of(name);
            assert(list[i] == name);
        }
        if list.contains(name) && !front.contains(name) {
            let i = list.index_of(name);
            if i < front.len() {
                assert(front[i] == name);
            }
            assert(list.last() == name);
        }
        assert(list[list.len() - 1] == list.last());
        if kept.contains(name) {
            let i = kept.index_of(name);
            assert(all[i] == name);
        }
        if "device:"@.is_prefix_of(list.last()) {
            assert(all[kept.len() as int] == list.last());
        }
        if all.contains(name) && !kept.contains(name) {
            let i = all.index_of(name);
            if i < kept.len() {
                assert(kept[i] == name);
            }
        }
    }
}

/// At a point those hooks run that attach to it, and no others: the plugin under that
/// name is a hook, and the point is among its points.
pub proof fn law_hooks_run_where_they_attach(k: KernelModel, point: Text, name: Text)
    requires
        names::ascending(k.natives),
        names::ascending(k.plugins),
        well_named(k.plugins),
    ensures
        k.hook_names(point).contains(name) <==> kind_of(k, name) == Some(PluginKind::Hook)
            && points_of(k, name).contains(point),
{
    let natives = names::names_where(k.natives, native::attached_to(point));
    let loaded = registry::called(k.plugins, registry::attached_to(point));
    lemma_natives_where(k.natives, native::attached_to(point), name);
    lemma_plugins_where(k.plugins, registry::attached_to(point), name);
    lemma_unshadowed(k.natives, loaded, name);
    lemma_joined(natives, model::unshadowed(k.natives, loaded), name);
}

/// The strategy that is asked is one, a native one where there is any; and where none is
/// asked, there is none.
pub proof fn law_the_strategy_is_a_strategy(k: KernelModel, name: Text)
    requires
        names::ascending(k.natives),
        names::ascending(k.plugins),
        well_named(k.plugins),
    ensures
        k.strategy() matches Some(s) ==> kind_of(k, s) == Some(PluginKind::Strategy),
        kind_of(k, name) == Some(PluginKind::Strategy) ==> k.strategy() is Some,
        kind_of(k, name) == Some(PluginKind::Strategy) && names::find(k.natives, name) is Some
            ==> names::find(k.natives, k.strategy()->0) is Some,
{
    let natives = names::names_where(k.natives, native::of_kind(PluginKind::Strategy));
    let loaded = registry::called(k.plugins, registry::of_kind(PluginKind::Strategy));
    let shown = model::unshadowed(k.natives, loaded);
    lemma_natives_where(k.natives, native::of_kind(PluginKind::Strategy), name);
    lemma_plugins_where(k.plugins, registry::of_kind(PluginKind::Strategy), name);
    lemma_unshadowed(k.natives, loaded, name);
    if k.strategy() is Some {
        let s = k.strategy()->0;
        lemma_natives_where(k.natives, native::of_kind(PluginKind::Strategy), s);
        lemma_plugins_where(k.plugins, registry::of_kind(PluginKind::Strategy), s);
        lemma_unshadowed(k.natives, loaded, s);
        if natives.len() > 0 {
            assert(natives.contains(natives[0]));
        } else {
            assert(shown.contains(shown[0]));
        }
    }
    if natives.contains(name) {
        assert(natives.len() > 0);
    }
    if shown.contains(name) {
        assert(shown.len() > 0);
    }
}

// Order.

proof fn lemma_names_in_order<T>(s: Seq<(Text, T)>, wanted: spec_fn((Text, T)) -> bool)
    requires
        names::ascending(s),
    ensures
        rising(names::names_where(s, wanted)),
        forall|n: Text|
            names::names_where(s, wanted).contains(n) ==> exists|i: int|
                0 <= i < s.len() && (#[trigger] s[i]).0 == n,
    decreases s.len(),
{
    let list = names::names_where(s, wanted);
    if s.len() > 0 {
        let front = s.drop_last();
        let kept = names::names_where(front, wanted);
        assert forall|i: int, j: int| 0 <= i < j < front.len() implies text::text_le(
            (#[trigger] front[i]).0,
            (#[trigger] front[j]).0,
        ) && front[i].0 != front[j].0 by {
            assert(front[i] == s[i] && front[j] == s[j]);
        }
        lemma_names_in_order(front, wanted);
        assert forall|i: int, j: int| 0 <= i < j < list.len() implies text::text_le(
            #[trigger] list[i],
            #[trigger] list[j],
        ) && list[i] != list[j] by {
            if j == kept.len() {
                assert(kept.contains(kept[i]));
                let a = choose|a: int| 0 <= a < front.len() && (#[trigger] front[a]).0 == kept[i];
                assert(s[a].0 == kept[i]);
                assert(s[s.len() - 1] == s.last());
            }
        }
    }
    assert forall|n: Text| list.contains(n) implies exists|i: int|
        0 <= i < s.len() && (#[trigger] s[i]).0 == n by {
        lemma_names_where(s, wanted, n);
    }
}

/// Names that ascend, each once.
pub open spec fn rising(list: Seq<Text>) -> bool {
    forall|i: int, j: int|
        0 <= i < j < list.len() ==> text::text_le(#[trigger] list[i], #[trigger] list[j]) && list[i]
            != list[j]
}

/// The native hooks of a point run first, by name, and then the wasm ones that no native
/// plugin takes the name of, by name.
pub proof fn law_hooks_run_in_order(k: KernelModel, point: Text, i: int, j: int)
    requires
        names::ascending(k.natives),
        0 <= i < j < k.hook_names(point).len(),
    ensures
        ({
            let a = k.hook_names(point)[i];
            let b = k.hook_names(point)[j];
            &&& names::find(k.natives, b) is Some ==> names::find(k.natives, a) is Some
                && text::text_le(a, b) && a != b
            &&& names::find(k.natives, a) is None ==> names::find(k.natives, b) is None
                && text::text_le(a, b)
        }),
{
    let natives = names::names_where(k.natives, native::attached_to(point));
    let loaded = registry::called(k.plugins, registry::attached_to(point));
    let shown = model::unshadowed(k.natives, loaded);
    let all = k.hook_names(point);
    lemma_names_in_order(k.natives, native::attached_to(point));
    registry::law_plugins_are_listed_by_name(k.plugins, registry::attached_to(point));
    lemma_shown_in_order(k.natives, loaded);
    if i < natives.len() {
        assert(natives.contains(natives[i]));
        let a = choose|a: int| 0 <= a < k.natives.len() && (#[trigger] k.natives[a]).0
            == natives[i];
        names::lemma_find_at(k.natives, a);
    } else {
        assert(shown.contains(shown[i - natives.len()]));
        lemma_unshadowed(k.natives, loaded, shown[i - natives.len()]);
        assert(all[i] == shown[i - natives.len()]);
    }
    if j < natives.len() {
        assert(all[j] == natives[j]);
    } else {
        assert(shown.contains(shown[j - natives.len()]));
        lemma_unshadowed(k.natives, loaded, shown[j - natives.len()]);
        assert(all[j] == shown[j - natives.len()]);
    }
}

proof fn lemma_shown_in_order(natives: Natives, list: Seq<Text>)
    requires
        forall|i: int, j: int|
            0 <= i < j < list.len() ==> text::text_le(#[trigger] list[i], #[trigger] list[j]),
    ensures
        forall|i: int, j: int|
            0 <= i < j < model::unshadowed(natives, list).len() ==> text::text_le(
                #[trigger] model::unshadowed(natives, list)[i],
                #[trigger] model::unshadowed(natives, list)[j],
            ),
    decreases list.len(),
{
    if list.len() > 0 {
        let front = list.drop_last();
        let kept = model::unshadowed(natives, front);
        let all = model::unshadowed(natives, list);
        assert forall|i: int, j: int| 0 <= i < j < front.len() implies text::text_le(
            #[trigger] front[i],
            #[trigger] front[j],
        ) by {
            assert(front[i] == list[i] && front[j] == list[j]);
        }
        lemma_shown_in_order(natives, front);
        assert forall|i: int, j: int| 0 <= i < j < all.len() implies text::text_le(
            #[trigger] all[i],
            #[trigger] all[j],
        ) by {
            if j == kept.len() {
                lemma_unshadowed(natives, front, kept[i]);
                assert(kept.contains(kept[i]));
                let a = front.index_of(kept[i]);
                assert(list[a] == kept[i]);
                assert(list[list.len() - 1] == list.last());
            }
        }
    }
}

/// The strategy that is asked is the first by name: of the native ones where there are
/// any, and else of the wasm ones.
pub proof fn law_the_first_strategy_is_asked(k: KernelModel, name: Text)
    requires
        names::ascending(k.natives),
        names::ascending(k.plugins),
        well_named(k.plugins),
        kind_of(k, name) == Some(PluginKind::Strategy),
        k.strategy() != Some(name),
    ensures
        k.strategy() is Some,
        names::find(k.natives, k.strategy()->0) is Some == names::find(k.natives, name) is Some
            ==> text::text_le(k.strategy()->0, name),
{
    let natives = names::names_where(k.natives, native::of_kind(PluginKind::Strategy));
    let loaded = registry::called(k.plugins, registry::of_kind(PluginKind::Strategy));
    let shown = model::unshadowed(k.natives, loaded);
    law_the_strategy_is_a_strategy(k, name);
    lemma_names_in_order(k.natives, native::of_kind(PluginKind::Strategy));
    registry::law_plugins_are_listed_by_name(
        k.plugins,
        registry::of_kind(PluginKind::Strategy),
    );
    lemma_shown_in_order(k.natives, loaded);
    lemma_natives_where(k.natives, native::of_kind(PluginKind::Strategy), name);
    lemma_plugins_where(k.plugins, registry::of_kind(PluginKind::Strategy), name);
    lemma_unshadowed(k.natives, loaded, name);
    if natives.contains(name) {
        let i = natives.index_of(name);
        assert(text::text_le(natives[0], natives[i]));
    } else {
        assert(shown.contains(name));
        let i = shown.index_of(name);
        if natives.len() == 0 {
            assert(text::text_le(shown[0], shown[i]));
        } else {
            assert(natives.contains(natives[0]));
            lemma_natives_where(
                k.natives,
                native::of_kind(PluginKind::Strategy),
                natives[0],
            );
        }
    }
}

// Names.

proof fn lemma_put_named(s: Plugins, name: Text, p: PluginModel)
    requires
        well_named(s),
        p.manifest.name == name,
    ensures
        well_named(names::put(s, name, p)),
    decreases s.len(),
{
    let t = names::put(s, name, p);
    if s.len() > 0 {
        let rest = s.drop_first();
        assert forall|i: int| 0 <= i < rest.len() implies (#[trigger] rest[i]).1.manifest.name
            == rest[i].0 by {
            assert(rest[i] == s[i + 1]);
        }
        lemma_put_named(rest, name, p);
        assert(s[0].1.manifest.name == s[0].0);
        assert forall|i: int| 0 <= i < t.len() implies (#[trigger] t[i]).1.manifest.name
            == t[i].0 by {
            if s[0].0 == name {
                assert(t =~= seq![(name, p)] + rest);
                if i > 0 {
                    assert(t[i] == rest[i - 1]);
                }
            } else if text::text_le(name, s[0].0) {
                assert(t =~= seq![(name, p)] + s);
                if i > 0 {
                    assert(t[i] == s[i - 1]);
                }
            } else {
                let u = names::put(rest, name, p);
                assert(t =~= seq![s[0]] + u);
                if i > 0 {
                    assert(t[i] == u[i - 1]);
                }
            }
        }
    }
}

/// Whatever is found by a scan is kept under its own name, and the names ascend, so all
/// that is said of such plugins holds of those that a scan finds.
pub proof fn law_scanned_plugins_are_well_named(
    states: Seq<ScanModel>,
    dirs: Seq<PluginDir>,
    trust: TrustModel,
    n: int,
)
    requires
        registry::scanned_all(states, dirs, trust),
        0 <= n <= dirs.len(),
    ensures
        well_named(states[n].plugins),
        names::ascending(states[n].plugins),
    decreases n,
{
    if n > 0 {
        let m = n - 1;
        law_scanned_plugins_are_well_named(states, dirs, trust, m);
        assert(registry::scanned(states[m], states[m + 1], dirs[m], trust));
        if dirs[m].versions is Ok {
            let list = registry::versions(dirs[m].versions->Ok_0@);
            let name = dirs[m].name@;
            let (order, plugin, skipped) = choose|
                order: Seq<usize>,
                plugin: Option<PluginModel>,
                skipped: Seq<SkipModel>,
            |
                #![trigger registry::selected(list, name, trust, order, plugin, skipped)]
                registry::ranking(list, order) && registry::selected(
                    list,
                    name,
                    trust,
                    order,
                    plugin,
                    skipped,
                ) && match plugin {
                    Some(p) => states[n].plugins == names::put(states[m].plugins, name, p)
                        && states[n].notes == (states[m].notes + registry::trial_lines(
                        name,
                        trust,
                        plugin,
                        skipped,
                    )).push(registry::loaded_line(p.manifest)),
                    None => states[n].plugins == states[m].plugins && states[n].notes
                        == states[m].notes + registry::trial_lines(name, trust, plugin, skipped),
                };
            if plugin is Some {
                registry::law_what_is_selected_bears_its_name(
                    list,
                    name,
                    trust,
                    order,
                    plugin->0,
                    skipped,
                );
                lemma_put_named(states[m].plugins, name, plugin->0);
                names::lemma_put_ascending(states[m].plugins, name, plugin->0);
            }
        }
    }
}

/// A directory whose best version can be loaded gives its plugin: whatever other
/// directories hold, after the scan the plugin is there under the directory's name.
#[verifier::rlimit(40)]
pub proof fn law_a_scan_keeps_what_it_finds(
    states: Seq<ScanModel>,
    dirs: Seq<PluginDir>,
    trust: TrustModel,
    m: int,
    n: int,
    p: PluginModel,
)
    requires
        registry::scanned_all(states, dirs, trust),
        0 <= m < n <= dirs.len(),
        names::find(states[m + 1].plugins, dirs[m].name@) == Some(p),
        forall|i: int| m < i < dirs.len() ==> (#[trigger] dirs[i]).name@ != dirs[m].name@,
    ensures
        names::find(states[n].plugins, dirs[m].name@) == Some(p),
    decreases n,
{
    if n > m + 1 {
        let l = n - 1;
        law_a_scan_keeps_what_it_finds(states, dirs, trust, m, l, p);
        assert(dirs[l].name@ != dirs[m].name@);
        lemma_one_directory_on(states, dirs, trust, l, dirs[m].name@);
    }
}

#[verifier::rlimit(40)]
proof fn lemma_one_directory_on(
    states: Seq<ScanModel>,
    dirs: Seq<PluginDir>,
    trust: TrustModel,
    l: int,
    other: Text,
)
    requires
        registry::scanned_all(states, dirs, trust),
        0 <= l < dirs.len(),
        dirs[l].name@ != other,
    ensures
        names::find(states[l + 1].plugins, other) == names::find(states[l].plugins, other),
{
    law_scanned_plugins_are_well_named(states, dirs, trust, l);
    assert(registry::scanned(states[l], states[l + 1], dirs[l], trust));
    lemma_scanned_elsewhere(states[l], states[l + 1], dirs[l], trust, other);
}

/// A directory leaves the plugins of the others alone.
proof fn lemma_scanned_elsewhere(
    before: ScanModel,
    after: ScanModel,
    dir: PluginDir,
    trust: TrustModel,
    other: Text,
)
    requires
        registry::scanned(before, after, dir, trust),
        dir.name@ != other,
        names::ascending(before.plugins),
    ensures
        names::find(after.plugins, other) == names::find(before.plugins, other),
{
    if after.plugins != before.plugins {
        let q = choose|q: PluginModel|
            after.plugins == #[trigger] names::put(before.plugins, dir.name@, q);
        names::lemma_put_find(before.plugins, dir.name@, q, other);
    }
}

/// Every tool that the model can call stands in the prompt by its name.
pub proof fn law_what_can_be_called_is_in_the_prompt(k: KernelModel, name: Text)
    requires
        names::ascending(k.natives),
        names::ascending(k.plugins),
        well_named(k.plugins),
        k.tool_devices(name) is Some,
    ensures
        exists|before: Text, after: Text| #[trigger]
            named_between(before, name, after) == model::prompt_for(k.tools()),
{
    law_the_model_is_told_of_what_it_can_call(k, name);
    let i = k.tools().index_of(name);
    law_the_prompt_names_every_tool(k.tools(), i);
    let (before, after) = choose|before: Text, after: Text| #[trigger]
        named_between(before, k.tools()[i], after) == model::prompt_for(k.tools());
    assert(named_between(before, name, after) == model::prompt_for(k.tools()));
}

} // verus!
