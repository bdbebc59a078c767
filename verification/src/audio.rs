//! Audio capture: the list of capture targets, the negotiated sample rate, the
//! layout of captured buffers, and the ring that carries samples to the render
//! thread.
//!
//! A capture thread runs the main loop of the audio server. It keeps the list of
//! audio nodes (microphones, line-ins, and the monitors of sinks for system
//! output) and a capture stream. What it is to do is decided here; the calls into
//! the audio server are made outside.

use crate::ring;
use crate::ring::{SampleConsumer, SampleProducer};
use crate::text;
use vstd::prelude::*;

verus! {

/// A selectable capture target discovered on the audio server.
#[derive(Clone, Debug)]
pub struct SourceInfo {
    pub id: u32,
    pub name: String,
    /// A sink: capture its monitor (system output) rather than an input.
    pub is_sink: bool,
}

/// Commands sent from the render thread to the capture thread.
#[derive(Clone, Copy, Debug, PartialEq, Eq, Structural)]
pub enum Command {
    /// Re-target capture. Without a target, the default sink monitor (system
    /// output) is captured if `capture_sink` holds, else the default source.
    Connect { target: Option<u32>, capture_sink: bool },
}

/// Capacity of the sample ring, in samples. About a third of a second at the
/// usual rate; the consumer always drains fully.
pub const RING_CAPACITY: usize = 16384;

/// The sample rate that is assumed until one has been negotiated, in Hz.
pub const DEFAULT_SAMPLE_RATE: u32 = 48000;

/// Bytes of a captured sample.
pub const SAMPLE_BYTES: usize = 4;

/// The properties of an audio node that a capture target is made from.
#[derive(Debug)]
pub struct NodeProps {
    /// `media.class`.
    pub media_class: Option<String>,
    /// `node.description`.
    pub description: Option<String>,
    /// `node.nick`.
    pub nick: Option<String>,
    /// `node.name`.
    pub name: Option<String>,
}

/// An object that the audio server announced.
#[derive(Debug)]
pub struct GlobalObject {
    pub id: u32,
    /// Whether it is a node.
    pub is_node: bool,
    pub props: Option<NodeProps>,
}

/// The class of a node; empty if it has none.
pub open spec fn media_class(props: NodeProps) -> Seq<char> {
    match props.media_class {
        Some(c) => c@,
        None => Seq::empty(),
    }
}

/// A node that plays: its monitor can be captured.
pub open spec fn is_sink_class(class: Seq<char>) -> bool {
    text::occurs_in(class, "Audio/Sink"@)
}

/// A node that records.
pub open spec fn is_source_class(class: Seq<char>) -> bool {
    text::occurs_in(class, "Audio/Source"@)
}

/// The name to show for a node: the first of its description, its nick and its
/// name that it has.
pub open spec fn display_name(props: NodeProps) -> Seq<char> {
    match (props.description, props.nick, props.name) {
        (Some(n), _, _) => n@,
        (None, Some(n), _) => n@,
        (None, None, Some(n)) => n@,
        (None, None, None) => "(unnamed)"@,
    }
}

/// The object can be captured.
pub open spec fn is_target(global: GlobalObject) -> bool {
    &&& global.is_node
    &&& global.props matches Some(props)
    &&& is_sink_class(media_class(props)) || is_source_class(media_class(props))
}

/// `info` is the capture target that an object makes.
pub open spec fn describes(info: SourceInfo, global: GlobalObject) -> bool {
    &&& info.id == global.id
    &&& global.props matches Some(props)
    &&& info.name@ == display_name(props)
    &&& info.is_sink == is_sink_class(media_class(props))
}

/// Classifies an announced object; a capture target if it is an audio source or
/// sink.
pub fn classify_node(global: &GlobalObject) -> (r: Option<SourceInfo>)
    ensures
        r is Some <==> is_target(*global),
        r matches Some(info) ==> describes(info, *global),
{
    if !global.is_node {
        return None;
    }
    match &global.props {
        None => None,
        Some(props) => {
            proof {
                reveal_strlit("");
            }
            let class: &str = match &props.media_class {
                Some(c) => c.as_str(),
                None => "",
            };
            assert(class@ == media_class(*props));
            let is_sink: bool = text::contains_text(class, "Audio/Sink");
            let is_source: bool = text::contains_text(class, "Audio/Source");
            if !is_sink && !is_source {
                return None;
            }
            let name: String = match &props.description {
                Some(n) => n.clone(),
                None => match &props.nick {
                    Some(n) => n.clone(),
                    None => match &props.name {
                        Some(n) => n.clone(),
                        None => "(unnamed)".to_owned(),
                    },
                },
            };
            Some(SourceInfo { id: global.id, name, is_sink })
        },
    }
}

/// A copy of a capture target.
pub fn copy_source(s: &SourceInfo) -> (r: SourceInfo)
    ensures
        r == *s,
{
    SourceInfo { id: s.id, name: s.name.clone(), is_sink: s.is_sink }
}

/// What the capture thread shares with the render thread.
pub struct CaptureState {
    /// The capture targets, in the order in which they were discovered.
    pub sources: Vec<SourceInfo>,
    /// The negotiated sample rate, in Hz.
    pub sample_rate: u32,
}

/// Some target of the list has this id.
pub open spec fn lists_id(sources: Seq<SourceInfo>, id: u32) -> bool {
    exists|i: int| 0 <= i < sources.len() && (#[trigger] sources[i]).id == id
}

/// The list without the targets of this id.
pub open spec fn without_id(sources: Seq<SourceInfo>, id: u32) -> Seq<SourceInfo> {
    sources.filter(|s: SourceInfo| s.id != id)
}

/// No two targets have one id.
pub open spec fn distinct_ids(sources: Seq<SourceInfo>) -> bool {
    forall|i: int, j: int|
        0 <= i < j < sources.len() ==> (#[trigger] sources[i]).id != (#[trigger] sources[j]).id
}

/// `after` is the list after an object was announced: a target that is not listed
/// yet comes last, and nothing else changes it.
pub open spec fn announced(
    before: Seq<SourceInfo>,
    global: GlobalObject,
    after: Seq<SourceInfo>,
) -> bool {
    if is_target(global) && !lists_id(before, global.id) {
        &&& after.len() == before.len() + 1
        &&& after.drop_last() == before
        &&& describes(after.last(), global)
    } else {
        after == before
    }
}

impl CaptureState {
    /// No target is listed twice, and the rate is a rate.
    pub open spec fn wf(&self) -> bool {
        distinct_ids(self.sources@) && self.sample_rate > 0
    }

    /// Nothing discovered and nothing negotiated yet.
    pub fn new() -> (r: CaptureState)
        ensures
            r.wf(),
            r.sources@.len() == 0,
            r.sample_rate == DEFAULT_SAMPLE_RATE,
    {
        CaptureState { sources: Vec::new(), sample_rate: DEFAULT_SAMPLE_RATE }
    }

    /// Takes note of an announced object. A target that is already listed is left
    /// as it is.
    pub fn global_added(&mut self, global: &GlobalObject)
        requires
            old(self).wf(),
        ensures
            final(self).wf(),
            final(self).sample_rate == old(self).sample_rate,
            announced(old(self).sources@, *global, final(self).sources@),
            is_target(*global) ==> lists_id(final(self).sources@, global.id),
    {
        match classify_node(global) {
            Some(info) => {
                let mut i: usize = 0;
                while i < self.sources.len()
                    invariant
                        i <= self.sources@.len(),
                        forall|j: int| 0 <= j < i ==> (#[trigger] self.sources@[j]).id != info.id,
                        info.id == global.id,
                        *self == *old(self),
                        self.wf(),
                    decreases self.sources@.len() - i,
                {
                    if self.sources[i].id == info.id {
                        assert(lists_id(self.sources@, global.id));
                        return ;
                    }
                    i = i + 1;
                }
                assert(!lists_id(self.sources@, global.id));
                self.sources.push(info);
                assert(self.sources@.drop_last() =~= old(self).sources@);
                assert(self.sources@[self.sources@.len() - 1].id == global.id);
            },
            None => {},
        }
    }

    /// Takes note of the removal of an object.
    pub fn global_removed(&mut self, id: u32)
        requires
            old(self).wf(),
        ensures
            final(self).wf(),
            final(self).sample_rate == old(self).sample_rate,
            final(self).sources@ == without_id(old(self).sources@, id),
    {
        let mut kept: Vec<SourceInfo> = Vec::new();
        let mut i: usize = 0;
        let ghost all = self.sources@;
        assert(all.take(0).filter(|s: SourceInfo| s.id != id) =~= Seq::empty()) by {
            reveal(Seq::filter);
        }
        while i < self.sources.len()
            invariant
                i <= self.sources@.len(),
                self.sources@ == all,
                self.sample_rate == old(self).sample_rate,
                kept@ == without_id(all.take(i as int), id),
            decreases self.sources@.len() - i,
        {
            proof {
                reveal(Seq::filter);
                assert(all.take(i + 1).drop_last() =~= all.take(i as int));
                assert(all.take(i + 1).last() == all[i as int]);
            }
            if self.sources[i].id != id {
                kept.push(copy_source(&self.sources[i]));
            }
            i = i + 1;
        }
        assert(all.take(all.len() as int) =~= all);
        proof {
            lemma_without_id_distinct(all, id);
        }
        self.sources = kept;
    }

    /// Stores a negotiated rate.
    pub fn rate_negotiated(&mut self, rate: u32)
        requires
            old(self).wf(),
        ensures
            final(self).wf(),
            final(self).sources == old(self).sources,
            final(self).sample_rate == (if rate > 0 {
                rate
            } else {
                old(self).sample_rate
            }),
    {
        if rate > 0 {
            self.sample_rate = rate;
        }
    }
}

/// Removing targets keeps the others, in order: what is left is distinct and
/// holds none of the removed id.
proof fn lemma_without_id_distinct(sources: Seq<SourceInfo>, id: u32)
    requires
        distinct_ids(sources),
    ensures
        distinct_ids(without_id(sources, id)),
        !lists_id(without_id(sources, id), id),
        forall|k: u32|
            k != id ==> lists_id(without_id(sources, id), k) == #[trigger] lists_id(sources, k),
        without_id(sources, id).len() <= sources.len(),
    decreases sources.len(),
{
    reveal(Seq::filter);
    if sources.len() > 0 {
        let front = sources.drop_last();
        let kept = without_id(front, id);
        lemma_without_id_distinct(front, id);
        let all = without_id(sources, id);
        assert forall|k: u32| #[trigger]
            lists_id(sources, k) <==> (lists_id(front, k) || sources.last().id == k) by {
            if lists_id(sources, k) {
                let i = choose|i: int| 0 <= i < sources.len() && (#[trigger] sources[i]).id == k;
                if i < front.len() {
                    assert(front[i].id == k);
                }
            }
            if lists_id(front, k) {
                let i = choose|i: int| 0 <= i < front.len() && (#[trigger] front[i]).id == k;
                assert(sources[i].id == k);
            }
        }
        if sources.last().id != id {
            assert(all == kept.push(sources.last()));
            assert(!lists_id(front, sources.last().id)) by {
                if lists_id(front, sources.last().id) {
                    let i = choose|i: int|
                        0 <= i < front.len() && (#[trigger] front[i]).id == sources.last().id;
                    assert(sources[i].id == sources[sources.len() - 1].id);
                }
            }
            assert(!lists_id(kept, sources.last().id));
            assert(distinct_ids(all)) by {
                assert forall|i: int, j: int| 0 <= i < j < all.len() implies (#[trigger] all[i]).id
                    != (#[trigger] all[j]).id by {
                    assert(all[i] == kept[i]);
                    if j < kept.len() {
                        assert(all[j] == kept[j]);
                    }
                }
            }
            assert forall|k: u32| lists_id(all, k) <==> (lists_id(kept, k) || sources.last().id
                == k) by {
                if lists_id(all, k) {
                    let i = choose|i: int| 0 <= i < all.len() && (#[trigger] all[i]).id == k;
                    if i < kept.len() {
                        assert(kept[i].id == k);
                    }
                }
                if lists_id(kept, k) {
                    let i = choose|i: int| 0 <= i < kept.len() && (#[trigger] kept[i]).id == k;
                    assert(all[i].id == k);
                }
                if sources.last().id == k {
                    assert(all[all.len() - 1].id == k);
                }
            }
        } else {
            assert(all == kept);
        }
    }
}

/// A removed target is gone, and every other target stays.
pub proof fn removed_target_is_gone(sources: Seq<SourceInfo>, id: u32, other: u32)
    requires
        distinct_ids(sources),
    ensures
        !lists_id(without_id(sources, id), id),
        other != id ==> lists_id(without_id(sources, id), other) == lists_id(sources, other),
{
    lemma_without_id_distinct(sources, id);
}

/// A target that is added and removed again leaves the list as it was.
pub proof fn added_and_removed_target_leaves_no_trace(sources: Seq<SourceInfo>, info: SourceInfo)
    requires
        !lists_id(sources, info.id),
    ensures
        without_id(sources.push(info), info.id) == sources,
{
    reveal(Seq::filter);
    assert(sources.push(info).drop_last() =~= sources);
    lemma_without_absent(sources, info.id);
}

proof fn lemma_without_absent(sources: Seq<SourceInfo>, id: u32)
    requires
        !lists_id(sources, id),
    ensures
        without_id(sources, id) == sources,
    decreases sources.len(),
{
    reveal(Seq::filter);
    if sources.len() > 0 {
        let front = sources.drop_last();
        assert(!lists_id(front, id)) by {
            if lists_id(front, id) {
                let i = choose|i: int| 0 <= i < front.len() && (#[trigger] front[i]).id == id;
                assert(sources[i].id == id);
            }
        }
        assert(sources[sources.len() - 1].id != id);
        lemma_without_absent(front, id);
        assert(front.push(sources.last()) =~= sources);
    }
}

/// Something that the audio server tells of its objects.
pub enum RegistryEvent {
    Added(GlobalObject),
    Removed(u32),
}

/// `after` is the list after an event.
pub open spec fn registry_step(
    before: Seq<SourceInfo>,
    event: RegistryEvent,
    after: Seq<SourceInfo>,
) -> bool {
    match event {
        RegistryEvent::Added(global) => announced(before, global, after),
        RegistryEvent::Removed(id) => after == without_id(before, id),
    }
}

/// `lists` are the lists that events lead through, from an empty one.
pub open spec fn registry_run(lists: Seq<Seq<SourceInfo>>, events: Seq<RegistryEvent>) -> bool {
    &&& lists.len() == events.len() + 1
    &&& lists[0].len() == 0
    &&& forall|k: int|
        0 <= k < events.len() ==> registry_step(lists[k], #[trigger] events[k], lists[k + 1])
}

/// The object that stands behind the listed target of an id after events: the first
/// target of that id that was announced and not removed since.
pub open spec fn standing(events: Seq<RegistryEvent>, id: u32) -> Option<GlobalObject>
    decreases events.len(),
{
    if events.len() == 0 {
        None
    } else {
        let before = standing(events.drop_last(), id);
        match events.last() {
            RegistryEvent::Added(global) => if before is None && is_target(global) && global.id
                == id {
                Some(global)
            } else {
                before
            },
            RegistryEvent::Removed(gone) => if gone == id {
                None
            } else {
                before
            },
        }
    }
}

/// Whatever the audio server tells, the list holds exactly the targets that were
/// announced and not removed since, each once, as they were first announced.
pub proof fn the_list_follows_the_registry(
    lists: Seq<Seq<SourceInfo>>,
    events: Seq<RegistryEvent>,
    id: u32,
)
    requires
        registry_run(lists, events),
    ensures
        distinct_ids(lists.last()),
        lists_id(lists.last(), id) <==> standing(events, id) is Some,
        forall|i: int|
            0 <= i < lists.last().len() && (#[trigger] lists.last()[i]).id == id ==> describes(
                lists.last()[i],
                standing(events, id)->0,
            ),
    decreases events.len(),
{
    if events.len() > 0 {
        let n = events.len() as int;
        let earlier = lists.drop_last();
        let before = lists[n - 1];
        let after = lists[n];
        let front = events.drop_last();
        assert(registry_run(earlier, front)) by {
            assert forall|k: int| 0 <= k < front.len() implies registry_step(
                earlier[k],
                #[trigger] front[k],
                earlier[k + 1],
            ) by {
                assert(front[k] == events[k]);
            }
        }
        the_list_follows_the_registry(earlier, front, id);
        assert(earlier.last() == before);
        assert(lists.last() == after);
        assert(registry_step(before, events[n - 1], after));
        match events[n - 1] {
            RegistryEvent::Added(global) => {
                if is_target(global) && !lists_id(before, global.id) {
                    lemma_listed_last(before, after, global.id);
                    assert forall|i: int|
                        0 <= i < after.len() && (#[trigger] after[i]).id == id implies describes(
                        after[i],
                        standing(events, id)->0,
                    ) by {
                        if i < before.len() {
                            assert(before[i] == after[i]);
                            assert(lists_id(before, id));
                        }
                    }
                    if lists_id(before, id) {
                        let i = choose|i: int| 0 <= i < before.len() && (#[trigger] before[i]).id == id;
                        assert(after[i].id == id);
                    }
                    if lists_id(after, id) && global.id != id {
                        let i = choose|i: int| 0 <= i < after.len() && (#[trigger] after[i]).id == id;
                        assert(before[i].id == id);
                    }
                }
            },
            RegistryEvent::Removed(gone) => {
                lemma_without_id_distinct(before, gone);
                lemma_without_id_from(before, gone);
                assert forall|i: int|
                    0 <= i < after.len() && (#[trigger] after[i]).id == id implies describes(
                    after[i],
                    standing(events, id)->0,
                ) by {
                    assert(lists_id(after, id));
                    assert(before.contains(after[i]));
                    let j = choose|j: int| 0 <= j < before.len() && before[j] == after[i];
                    assert(before[j].id == id);
                }
            },
        }
    }
}

/// An object of an id is among objects.
pub open spec fn has_id(objects: Seq<GlobalObject>, id: u32) -> bool {
    exists|i: int| 0 <= i < objects.len() && (#[trigger] objects[i]).id == id
}

/// The objects behind the listed targets after events, in the order in which they
/// were announced.
pub open spec fn standing_objects(events: Seq<RegistryEvent>) -> Seq<GlobalObject>
    decreases events.len(),
{
    if events.len() == 0 {
        seq![]
    } else {
        let before = standing_objects(events.drop_last());
        match events.last() {
            RegistryEvent::Added(global) => if is_target(global) && !has_id(before, global.id) {
                before.push(global)
            } else {
                before
            },
            RegistryEvent::Removed(id) => before.filter(|g: GlobalObject| g.id != id),
        }
    }
}

/// Each listed target describes the object at the same place.
pub open spec fn describe_all(sources: Seq<SourceInfo>, objects: Seq<GlobalObject>) -> bool {
    &&& sources.len() == objects.len()
    &&& forall|i: int|
        0 <= i < sources.len() ==> describes(#[trigger] sources[i], objects[i])
}

/// The list holds the announced targets that are still there, in the order of their
/// announcement.
pub proof fn the_list_keeps_the_order_of_announcement(
    lists: Seq<Seq<SourceInfo>>,
    events: Seq<RegistryEvent>,
)
    requires
        registry_run(lists, events),
    ensures
        describe_all(lists.last(), standing_objects(events)),
    decreases events.len(),
{
    if events.len() > 0 {
        let n = events.len() as int;
        let earlier = lists.drop_last();
        let front = events.drop_last();
        assert forall|k: int| 0 <= k < front.len() implies registry_step(
            earlier[k],
            #[trigger] front[k],
            earlier[k + 1],
        ) by {
            assert(front[k] == events[k]);
        }
        the_list_keeps_the_order_of_announcement(earlier, front);
        let before = lists[n - 1];
        let after = lists[n];
        let objects = standing_objects(front);
        assert(registry_step(before, events[n - 1], after));
        match events[n - 1] {
            RegistryEvent::Added(global) => {
                assert(lists_id(before, global.id) == has_id(objects, global.id)) by {
                    if lists_id(before, global.id) {
                        let i = choose|i: int|
                            0 <= i < before.len() && (#[trigger] before[i]).id == global.id;
                        assert(objects[i].id == global.id);
                    }
                    if has_id(objects, global.id) {
                        let i = choose|i: int|
                            0 <= i < objects.len() && (#[trigger] objects[i]).id == global.id;
                        assert(describes(before[i], objects[i]));
                        assert(before[i].id == global.id);
                    }
                }
                if is_target(global) && !lists_id(before, global.id) {
                    assert forall|i: int| 0 <= i < after.len() implies describes(
                        #[trigger] after[i],
                        standing_objects(events)[i],
                    ) by {
                        if i < before.len() {
                            assert(after.drop_last()[i] == before[i]);
                        }
                    }
                }
            },
            RegistryEvent::Removed(id) => {
                lemma_describe_without(before, objects, id);
            },
        }
    }
}

proof fn lemma_describe_without(sources: Seq<SourceInfo>, objects: Seq<GlobalObject>, id: u32)
    requires
        describe_all(sources, objects),
    ensures
        describe_all(
            without_id(sources, id),
            objects.filter(|g: GlobalObject| g.id != id),
        ),
    decreases sources.len(),
{
    reveal(Seq::filter);
    if sources.len() > 0 {
        assert(describes(sources[sources.len() - 1], objects.last()));
        let front = sources.drop_last();
        assert forall|i: int| 0 <= i < front.len() implies describes(
            #[trigger] front[i],
            objects.drop_last()[i],
        ) by {
            assert(front[i] == sources[i]);
        }
        lemma_describe_without(front, objects.drop_last(), id);
    }
}

/// A new id at the end of a list keeps its ids distinct.
proof fn lemma_listed_last(before: Seq<SourceInfo>, after: Seq<SourceInfo>, id: u32)
    requires
        distinct_ids(before),
        !lists_id(before, id),
        after.len() == before.len() + 1,
        after.drop_last() == before,
        after.last().id == id,
    ensures
        distinct_ids(after),
        lists_id(after, id),
{
    assert(after[after.len() - 1].id == id);
    assert forall|i: int, j: int| 0 <= i < j < after.len() implies (#[trigger] after[i]).id != (
    #[trigger] after[j]).id by {
        assert(after[i] == before[i]);
        if j < before.len() {
            assert(after[j] == before[j]);
        }
    }
}

/// What is left of a list was in it.
proof fn lemma_without_id_from(sources: Seq<SourceInfo>, id: u32)
    ensures
        forall|i: int|
            0 <= i < without_id(sources, id).len() ==> sources.contains(
                #[trigger] without_id(sources, id)[i],
            ),
    decreases sources.len(),
{
    reveal(Seq::filter);
    if sources.len() > 0 {
        let front = sources.drop_last();
        lemma_without_id_from(front, id);
        let kept = without_id(front, id);
        assert forall|i: int| 0 <= i < without_id(sources, id).len() implies sources.contains(
            #[trigger] without_id(sources, id)[i],
        ) by {
            if i < kept.len() {
                assert(without_id(sources, id)[i] == kept[i]);
                let j = choose|j: int| 0 <= j < front.len() && front[j] == kept[i];
                assert(sources[j] == kept[i]);
            } else {
                assert(sources[sources.len() - 1] == without_id(sources, id)[i]);
            }
        }
    }
}

/// `after` is the list of a one-shot enumeration after an object was announced: a
/// target comes last, and nothing else changes it.
pub open spec fn enumerated(
    before: Seq<SourceInfo>,
    global: GlobalObject,
    after: Seq<SourceInfo>,
) -> bool {
    if is_target(global) {
        &&& after.len() == before.len() + 1
        &&& after.drop_last() == before
        &&& describes(after.last(), global)
    } else {
        after == before
    }
}

/// `lists` are the lists that announced objects lead through, from an empty one.
pub open spec fn enumeration_run(
    lists: Seq<Seq<SourceInfo>>,
    globals: Seq<GlobalObject>,
) -> bool {
    &&& lists.len() == globals.len() + 1
    &&& lists[0].len() == 0
    &&& forall|k: int|
        0 <= k < globals.len() ==> enumerated(lists[k], #[trigger] globals[k], lists[k + 1])
}

/// The targets among announced objects, in order.
pub open spec fn targets_among(globals: Seq<GlobalObject>) -> Seq<GlobalObject> {
    globals.filter(|g: GlobalObject| is_target(g))
}

/// A whole enumeration lists every announced target, in the order of announcement,
/// and nothing else.
pub proof fn an_enumeration_lists_every_target(
    lists: Seq<Seq<SourceInfo>>,
    globals: Seq<GlobalObject>,
)
    requires
        enumeration_run(lists, globals),
    ensures
        describe_all(lists.last(), targets_among(globals)),
    decreases globals.len(),
{
    reveal(Seq::filter);
    if globals.len() > 0 {
        let n = globals.len() as int;
        let earlier = lists.drop_last();
        let front = globals.drop_last();
        assert forall|k: int| 0 <= k < front.len() implies enumerated(
            earlier[k],
            #[trigger] front[k],
            earlier[k + 1],
        ) by {
            assert(front[k] == globals[k]);
        }
        an_enumeration_lists_every_target(earlier, front);
        let before = lists[n - 1];
        let after = lists[n];
        assert(enumerated(before, globals[n - 1], after));
        if is_target(globals[n - 1]) {
            assert forall|i: int| 0 <= i < after.len() implies describes(
                #[trigger] after[i],
                targets_among(globals)[i],
            ) by {
                if i < before.len() {
                    assert(after.drop_last()[i] == before[i]);
                }
            }
        }
    }
}

/// Adds an announced object to the list of a one-shot enumeration, which holds
/// every target that was announced.
pub fn enumerate_global(found: &mut Vec<SourceInfo>, global: &GlobalObject)
    ensures
        enumerated(old(found)@, *global, final(found)@),
{
    match classify_node(global) {
        Some(info) => {
            found.push(info);
            assert(found@.drop_last() =~= old(found)@);
        },
        None => {},
    }
}

/// Whether a reply of the audio server ends the enumeration: it answers the sync
/// request `pending`, and comes from the core object `core_id`.
pub fn enumeration_done(id: u32, seq: i32, core_id: u32, pending: i32) -> (r: bool)
    ensures
        r == (id == core_id && seq == pending),
{
    id == core_id && seq == pending
}

/// A property that a capture stream is made with.
#[derive(Clone, Copy, Debug, PartialEq, Eq, Structural)]
pub enum StreamProperty {
    /// The media type is audio.
    AudioType,
    /// The media category is capture.
    CaptureCategory,
    /// The media role is music.
    MusicRole,
    /// The monitor of a sink is captured.
    CaptureSink,
}

/// The properties of a capture stream.
pub fn stream_properties(capture_sink: bool) -> (r: Vec<StreamProperty>)
    ensures
        r@ == seq![
            StreamProperty::AudioType,
            StreamProperty::CaptureCategory,
            StreamProperty::MusicRole,
        ] + (if capture_sink {
            seq![StreamProperty::CaptureSink]
        } else {
            seq![]
        }),
{
    let mut props: Vec<StreamProperty> = vec![
        StreamProperty::AudioType,
        StreamProperty::CaptureCategory,
        StreamProperty::MusicRole,
    ];
    if capture_sink {
        props.push(StreamProperty::CaptureSink);
    }
    assert(props@ =~= seq![
        StreamProperty::AudioType,
        StreamProperty::CaptureCategory,
        StreamProperty::MusicRole,
    ] + (if capture_sink {
        seq![StreamProperty::CaptureSink]
    } else {
        seq![]
    }));
    props
}

/// A change of a parameter of the capture stream.
#[derive(Clone, Copy, Debug, PartialEq, Eq, Structural)]
pub struct ParamChange {
    /// Whether the parameter has a value.
    pub has_value: bool,
    /// Whether it is the format.
    pub is_format: bool,
    /// Whether the value is a format at all, and that of raw audio.
    pub is_raw_audio: bool,
    /// The rate of the format, if the value could be read as raw audio.
    pub rate: Option<u32>,
}

/// The rate that a change of a parameter negotiates.
pub open spec fn rate_of_change(change: ParamChange) -> Option<u32> {
    if change.has_value && change.is_format && change.is_raw_audio {
        match change.rate {
            Some(rate) => if rate > 0 {
                Some(rate)
            } else {
                None
            },
            None => None,
        }
    } else {
        None
    }
}

/// Finds the rate that a change of a parameter negotiates, if it does.
pub fn param_changed(change: &ParamChange) -> (r: Option<u32>)
    ensures
        r == rate_of_change(*change),
{
    if !change.has_value || !change.is_format || !change.is_raw_audio {
        return None;
    }
    match change.rate {
        Some(rate) => if rate > 0 {
            Some(rate)
        } else {
            None
        },
        None => None,
    }
}

/// The samples of a captured buffer: frames of one sample per channel.
pub struct CapturedFrames {
    pub channels: usize,
    /// The samples of the frames, one frame after the other, as bit patterns.
    pub samples: Vec<u32>,
}

/// The word whose bytes, the lowest first, stand at position `i`.
pub open spec fn word_at(bytes: Seq<u8>, i: int) -> int {
    bytes[i] + 0x100 * bytes[i + 1] + 0x1_0000 * bytes[i + 2] + 0x100_0000 * bytes[i + 3]
}

/// The number of channels to reckon with.
pub open spec fn channel_count(channels: u32) -> int {
    if channels < 1 {
        1
    } else {
        channels as int
    }
}

/// A buffer of `chunk_size` bytes holds samples, and they are there.
pub open spec fn has_samples(chunk_size: u32, available: int) -> bool {
    let n = chunk_size as int / 4;
    n > 0 && available >= n * 4
}

/// The number of whole frames in a buffer.
pub open spec fn frame_count(chunk_size: u32, channels: u32) -> int {
    (chunk_size as int / 4) / channel_count(channels)
}

fn read_word(bytes: &[u8], i: usize) -> (r: u32)
    requires
        i + 4 <= bytes@.len(),
    ensures
        r == word_at(bytes@, i as int),
{
    bytes[i] as u32 + 0x100 * (bytes[i + 1] as u32) + 0x1_0000 * (bytes[i + 2] as u32) + 0x100_0000
        * (bytes[i + 3] as u32)
}

/// Decodes the interleaved samples of a captured buffer, of which `chunk_size`
/// bytes are in use. Samples behind the last whole frame are left out. Nothing
/// comes of a buffer that is empty or shorter than it says.
pub fn decode_frames(bytes: &[u8], chunk_size: u32, channels: u32) -> (r: Option<CapturedFrames>)
    ensures
        r is Some <==> has_samples(chunk_size, bytes@.len() as int),
        r matches Some(f) ==> {
            &&& f.channels == channel_count(channels)
            &&& f.samples@.len() == frame_count(chunk_size, channels) * f.channels
            &&& forall|k: int|
                0 <= k < f.samples@.len() ==> #[trigger] f.samples@[k] == word_at(bytes@, 4 * k)
        },
{
    let n: usize = (chunk_size as usize) / SAMPLE_BYTES;
    if n == 0 || bytes.len() < n * SAMPLE_BYTES {
        return None;
    }
    let count: usize = if channels < 1 {
        1
    } else {
        channels as usize
    };
    proof {
        vstd::arithmetic::div_mod::lemma_fundamental_div_mod(n as int, count as int);
        vstd::arithmetic::div_mod::lemma_mod_bound(n as int, count as int);
        vstd::arithmetic::div_mod::lemma_mod_decreases(n as nat, count as nat);
    }
    let total: usize = n - n % count;
    proof {
        assert(frame_count(chunk_size, channels) * count == total) by (nonlinear_arith)
            requires
                frame_count(chunk_size, channels) == n as int / count as int,
                n == count * (n as int / count as int) + n as int % count as int,
                total == n - n as int % count as int,
        ;
    }
    let mut samples: Vec<u32> = Vec::new();
    let mut k: usize = 0;
    while k < total
        invariant
            k <= total <= n,
            n * 4 <= bytes@.len(),
            n <= 0x4000_0000,
            samples@.len() == k,
            forall|j: int| 0 <= j < k ==> #[trigger] samples@[j] == word_at(bytes@, 4 * j),
        decreases total - k,
    {
        samples.push(read_word(bytes, 4 * k));
        k = k + 1;
    }
    Some(CapturedFrames { channels: count, samples })
}

/// Hands samples to the render thread. Those for which there is no place are
/// dropped, which is fine for a visualiser.
///
/// Returns how many went in.
pub fn deliver(producer: &mut SampleProducer, mono: &Vec<u32>) -> (count: usize)
    ensures
        count <= mono@.len(),
        count >= ring::smaller(mono@.len(), ring::room(*old(producer))),
        ring::pushed(*final(producer)) == ring::pushed(*old(producer)) + mono@.take(count as int),
        ring::room(*final(producer)) >= ring::room(*old(producer)) - count,
        ring::producer_lane(*final(producer)) == ring::producer_lane(*old(producer)),
        ring::in_order(ring::producer_lane(*final(producer)), ring::pushed(*final(producer))),
{
    ring::push_slice(producer, mono)
}

/// What the capture thread does in answer to a command.
#[derive(Clone, Copy, Debug, PartialEq, Eq, Structural)]
pub enum LoopAction {
    /// Disconnect the stream that is held, and let it go.
    Disconnect,
    /// Make and connect a stream, and hold it.
    Connect { target: Option<u32>, capture_sink: bool },
}

/// The answer to a command, given whether a stream is held: the old stream goes
/// before the new one comes.
pub fn handle_command(command: Command, held: bool) -> (r: Vec<LoopAction>)
    ensures
        match command {
            Command::Connect { target, capture_sink } => r@ == (if held {
                seq![LoopAction::Disconnect]
            } else {
                seq![]
            }) + seq![LoopAction::Connect { target, capture_sink }],
        },
{
    let mut actions: Vec<LoopAction> = Vec::new();
    if held {
        actions.push(LoopAction::Disconnect);
    }
    match command {
        Command::Connect { target, capture_sink } => {
            actions.push(LoopAction::Connect { target, capture_sink });
            assert(actions@ =~= (if held {
                seq![LoopAction::Disconnect]
            } else {
                seq![]
            }) + seq![LoopAction::Connect { target, capture_sink }]);
        },
    }
    actions
}

/// The render thread's end of audio capture.
pub struct AudioEngine {
    pub consumer: SampleConsumer,
}

/// The capture thread's end of audio capture.
pub struct Capture {
    pub producer: SampleProducer,
    pub state: CaptureState,
    /// What to connect to at the start.
    pub initial: Command,
}

impl AudioEngine {
    /// The engine drains a ring of [`RING_CAPACITY`], which holds no more than that.
    pub open spec fn wf(&self) -> bool {
        &&& ring::consumer_capacity(self.consumer) == RING_CAPACITY
        &&& ring::waiting(self.consumer) <= RING_CAPACITY
    }

    /// Sets up audio capture. With `capture_system_output` the monitor of the
    /// default sink is captured at first, else the default source.
    pub fn start(capture_system_output: bool) -> (r: (AudioEngine, Capture))
        ensures
            r.0.wf(),
            ring::popped(r.0.consumer).len() == 0,
            ring::waiting(r.0.consumer) == 0,
            ring::pushed(r.1.producer).len() == 0,
            ring::room(r.1.producer) == RING_CAPACITY,
            ring::producer_lane(r.1.producer) == ring::consumer_lane(r.0.consumer),
            r.1.state.wf(),
            r.1.state.sources@.len() == 0,
            r.1.state.sample_rate == DEFAULT_SAMPLE_RATE,
            r.1.initial == (Command::Connect {
                target: None::<u32>,
                capture_sink: capture_system_output,
            }),
    {
        let (producer, consumer) = ring::split_ring(ring::new_ring(RING_CAPACITY));
        (
            AudioEngine { consumer },
            Capture {
                producer,
                state: CaptureState::new(),
                initial: Command::Connect { target: None, capture_sink: capture_system_output },
            },
        )
    }

    /// Moves `n` samples, known to be waiting, into `out` (cleared first).
    pub fn take_waiting(&mut self, n: usize, out: &mut Vec<u32>)
        requires
            old(self).wf(),
            n <= ring::waiting(old(self).consumer),
        ensures
            final(self).wf(),
            final(out)@.len() == n,
            final(out)@.len() <= RING_CAPACITY,
            ring::popped(final(self).consumer) == ring::popped(old(self).consumer) + final(out)@,
            ring::consumer_lane(final(self).consumer) == ring::consumer_lane(old(self).consumer),
            n > 0 ==> ring::in_order(
                ring::consumer_lane(final(self).consumer),
                ring::popped(final(self).consumer),
            ),
            n == 0 ==> final(self).consumer == old(self).consumer,
    {
        out.clear();
        if n == 0 {
            assert(ring::popped(self.consumer) + out@ =~= ring::popped(self.consumer));
            return ;
        }
        out.resize(n, 0);
        let got: usize = ring::pop_slice(&mut self.consumer, out);
        let ghost all = out@;
        out.truncate(got);
        assert(out@ =~= all.take(got as int));
    }

    /// Drains all currently available samples into `out` (cleared first).
    ///
    /// What is available depends on the capture thread: those that the engine
    /// knew of are among them, and all are moved, in order. There are never more
    /// than the ring can hold.
    pub fn drain_samples(&mut self, out: &mut Vec<u32>)
        requires
            old(self).wf(),
        ensures
            final(self).wf(),
            final(out)@.len() <= RING_CAPACITY,
            final(out)@.len() >= ring::waiting(old(self).consumer),
            ring::popped(final(self).consumer) == ring::popped(old(self).consumer) + final(out)@,
            ring::consumer_lane(final(self).consumer) == ring::consumer_lane(old(self).consumer),
            ring::in_order(
                ring::consumer_lane(old(self).consumer),
                ring::popped(old(self).consumer),
            ) ==> ring::in_order(
                ring::consumer_lane(final(self).consumer),
                ring::popped(final(self).consumer),
            ),
    {
        let n: usize = ring::occupied_len(&mut self.consumer);
        self.take_waiting(n, out);
    }

    /// Snapshot of the currently known capture targets.
    pub fn sources(&self, state: &CaptureState) -> (r: Vec<SourceInfo>)
        ensures
            r@ == state.sources@,
    {
        let mut out: Vec<SourceInfo> = Vec::new();
        let mut i: usize = 0;
        while i < state.sources.len()
            invariant
                i <= state.sources@.len(),
                out@ == state.sources@.take(i as int),
            decreases state.sources@.len() - i,
        {
            out.push(copy_source(&state.sources[i]));
            i = i + 1;
            assert(out@ =~= state.sources@.take(i as int));
        }
        assert(state.sources@.take(state.sources@.len() as int) =~= state.sources@);
        out
    }

    /// Negotiated capture sample rate (Hz).
    pub fn sample_rate(&self, state: &CaptureState) -> (r: u32)
        ensures
            r == state.sample_rate,
    {
        state.sample_rate
    }

    /// The command that re-targets capture at a discovered source.
    pub fn connect_to(&self, src: &SourceInfo) -> (r: Command)
        ensures
            r == (Command::Connect { target: Some(src.id), capture_sink: src.is_sink }),
    {
        connect_command(src)
    }
}

/// The command that re-targets capture at a source.
pub fn connect_command(src: &SourceInfo) -> (r: Command)
    ensures
        r == (Command::Connect { target: Some(src.id), capture_sink: src.is_sink }),
{
    Command::Connect { target: Some(src.id), capture_sink: src.is_sink }
}

/// A sample of channel `c` of frame `f` stands where interleaving puts it, inside
/// the bytes in use.
pub proof fn frames_are_interleaved(chunk_size: u32, channels: u32, f: int, c: int)
    requires
        0 <= f < frame_count(chunk_size, channels),
        0 <= c < channel_count(channels),
    ensures
        0 <= f * channel_count(channels) + c < frame_count(chunk_size, channels) * channel_count(
            channels,
        ),
        4 * (f * channel_count(channels) + c) + 4 <= chunk_size,
{
    let n = chunk_size as int / 4;
    let d = channel_count(channels);
    let frames = frame_count(chunk_size, channels);
    vstd::arithmetic::div_mod::lemma_fundamental_div_mod(n, d);
    vstd::arithmetic::div_mod::lemma_mod_bound(n, d);
    assert(f * d + c < frames * d) by (nonlinear_arith)
        requires
            0 <= f < frames,
            0 <= c < d,
    ;
    assert(0 <= f * d) by (nonlinear_arith)
        requires
            0 <= f,
            0 < d,
    ;
    assert(frames * d <= n) by (nonlinear_arith)
        requires
            n == d * frames + n % d,
            0 <= n % d,
    ;
}

/// What can be captured is a node whose class has `Audio/Sink` or `Audio/Source`
/// in it, wherever; with the first it is a sink.
pub proof fn sinks_and_sources_can_be_captured(
    global: &GlobalObject,
    props: NodeProps,
    class: String,
    r: Option<SourceInfo>,
)
    requires
        call_ensures(classify_node, (global,), r),
        global.is_node,
        global.props == Some(props),
        props.media_class == Some(class),
    ensures
        forall|a: Seq<char>, b: Seq<char>|
            class@ == #[trigger] (a + "Audio/Sink"@ + b) ==> r is Some && r->0.is_sink,
        forall|a: Seq<char>, b: Seq<char>|
            class@ == #[trigger] (a + "Audio/Source"@ + b) ==> r is Some,
        r is Some && r->0.is_sink ==> exists|a: Seq<char>, b: Seq<char>|
            class@ == #[trigger] (a + "Audio/Sink"@ + b),
        r is Some && !r->0.is_sink ==> exists|a: Seq<char>, b: Seq<char>|
            class@ == #[trigger] (a + "Audio/Source"@ + b),
{
    text::lemma_occurs(class@, "Audio/Sink"@);
    text::lemma_occurs(class@, "Audio/Source"@);
}

/// What is no node, or has no class, cannot be captured.
pub proof fn other_objects_cannot_be_captured(global: &GlobalObject, r: Option<SourceInfo>)
    requires
        call_ensures(classify_node, (global,), r),
        !global.is_node || global.props is None || global.props->0.media_class is None,
    ensures
        r is None,
{
    reveal_strlit("Audio/Sink");
    reveal_strlit("Audio/Source");
}

/// A target has the id of its object, and is shown by the description, or else the
/// nick, or else the name of it.
pub proof fn targets_are_shown_by_their_best_name(
    global: &GlobalObject,
    props: NodeProps,
    r: Option<SourceInfo>,
)
    requires
        call_ensures(classify_node, (global,), r),
        global.props == Some(props),
        r is Some,
    ensures
        r->0.id == global.id,
        props.description matches Some(n) ==> r->0.name@ == n@,
        props.description is None ==> (props.nick matches Some(n) ==> r->0.name@ == n@),
        props.description is None && props.nick is None ==> (props.name matches Some(n)
            ==> r->0.name@ == n@),
        props.description is None && props.nick is None && props.name is None ==> r->0.name@
            == "(unnamed)"@,
{
}

/// An announced target that is not listed yet is appended as it was classified;
/// everything else leaves the list as it is.
pub proof fn new_targets_are_appended(
    state: &mut CaptureState,
    global: &GlobalObject,
    target: Option<SourceInfo>,
)
    requires
        call_ensures(CaptureState::global_added, (state, global), ()),
        call_ensures(classify_node, (global,), target),
    ensures
        final(state).sample_rate == old(state).sample_rate,
        target is None ==> final(state).sources@ == old(state).sources@,
        (exists|i: int|
            0 <= i < old(state).sources@.len() && (#[trigger] old(state).sources@[i]).id
                == global.id) ==> final(state).sources@ == old(state).sources@,
        target is Some && (forall|i: int|
            0 <= i < old(state).sources@.len() ==> (#[trigger] old(state).sources@[i]).id
                != global.id) ==> {
            &&& final(state).sources@.len() == old(state).sources@.len() + 1
            &&& final(state).sources@.drop_last() == old(state).sources@
            &&& final(state).sources@.last().id == target->0.id
            &&& final(state).sources@.last().name@ == target->0.name@
            &&& final(state).sources@.last().is_sink == target->0.is_sink
        },
{
}

proof fn lemma_without_id_order(sources: Seq<SourceInfo>, id: u32, i: int, j: int)
    requires
        0 <= i < j < without_id(sources, id).len(),
    ensures
        exists|p: int, q: int|
            0 <= p < q < sources.len() && #[trigger] sources[p] == without_id(sources, id)[i]
                && #[trigger] sources[q] == without_id(sources, id)[j],
    decreases sources.len(),
{
    reveal(Seq::filter);
    let front = sources.drop_last();
    let kept = without_id(front, id);
    let all = without_id(sources, id);
    assert(all[i] == kept[i]);
    if j < kept.len() {
        lemma_without_id_order(front, id, i, j);
        let (p, q) = choose|p: int, q: int|
            0 <= p < q < front.len() && #[trigger] front[p] == kept[i] && #[trigger] front[q]
                == kept[j];
        assert(sources[p] == all[i]);
        assert(sources[q] == all[j]);
    } else {
        lemma_without_id_from(front, id);
        assert(front.contains(kept[i]));
        let p = choose|p: int| 0 <= p < front.len() && front[p] == kept[i];
        assert(sources[p] == all[i]);
        assert(sources[sources.len() - 1] == all[j]);
    }
}

proof fn lemma_without_id_keeps(sources: Seq<SourceInfo>, id: u32, i: int)
    requires
        0 <= i < sources.len(),
        sources[i].id != id,
    ensures
        without_id(sources, id).contains(sources[i]),
    decreases sources.len(),
{
    reveal(Seq::filter);
    let front = sources.drop_last();
    let kept = without_id(front, id);
    let all = without_id(sources, id);
    if i < front.len() {
        assert(front[i] == sources[i]);
        lemma_without_id_keeps(front, id, i);
        let k = choose|k: int| 0 <= k < kept.len() && kept[k] == sources[i];
        assert(all[k] == sources[i]);
    } else {
        assert(all[all.len() - 1] == sources[i]);
    }
}

/// A removal takes out the targets of that id. All others stay, in their order, and
/// nothing comes in.
pub proof fn a_removal_takes_out_that_id_alone(state: &mut CaptureState, id: u32, i: int, j: int)
    requires
        old(state).wf(),
        call_ensures(CaptureState::global_removed, (state, id), ()),
    ensures
        final(state).sample_rate == old(state).sample_rate,
        forall|i: int|
            0 <= i < final(state).sources@.len() ==> (#[trigger] final(state).sources@[i]).id != id,
        forall|i: int|
            0 <= i < final(state).sources@.len() ==> old(state).sources@.contains(
                #[trigger] final(state).sources@[i],
            ),
        forall|i: int|
            0 <= i < old(state).sources@.len() && (#[trigger] old(state).sources@[i]).id != id
                ==> final(state).sources@.contains(old(state).sources@[i]),
        0 <= i < j < final(state).sources@.len() ==> exists|p: int, q: int|
            0 <= p < q < old(state).sources@.len()
                && #[trigger] old(state).sources@[p] == final(state).sources@[i]
                && #[trigger] old(state).sources@[q] == final(state).sources@[j],
{
    let before = old(state).sources@;
    lemma_without_id_distinct(before, id);
    lemma_without_id_from(before, id);
    let after = without_id(before, id);
    assert forall|i: int| 0 <= i < after.len() implies (#[trigger] after[i]).id != id by {
        assert(!lists_id(after, id));
    }
    assert forall|i: int| 0 <= i < before.len() && (#[trigger] before[i]).id != id implies after.contains(
    before[i]) by {
        lemma_without_id_keeps(before, id, i);
    }
    if 0 <= i < j < after.len() {
        lemma_without_id_order(before, id, i, j);
    }
}

/// A rate is stored unless it is zero.
pub proof fn rates_are_stored(state: &mut CaptureState, rate: u32)
    requires
        call_ensures(CaptureState::rate_negotiated, (state, rate), ()),
    ensures
        rate > 0 ==> final(state).sample_rate == rate,
        rate == 0 ==> final(state).sample_rate == old(state).sample_rate,
        final(state).sources@ == old(state).sources@,
{
}

/// An enumeration appends every announced target as it was classified, listed or
/// not, and nothing else.
pub proof fn an_enumeration_appends_targets(
    found: &mut Vec<SourceInfo>,
    global: &GlobalObject,
    target: Option<SourceInfo>,
)
    requires
        call_ensures(enumerate_global, (found, global), ()),
        call_ensures(classify_node, (global,), target),
    ensures
        target is None ==> final(found)@ == old(found)@,
        target is Some ==> {
            &&& final(found)@.len() == old(found)@.len() + 1
            &&& final(found)@.drop_last() == old(found)@
            &&& final(found)@.last().id == target->0.id
            &&& final(found)@.last().name@ == target->0.name@
            &&& final(found)@.last().is_sink == target->0.is_sink
        },
{
}

/// An enumeration ends with the reply of the core to its own request, and with no
/// other.
pub proof fn an_enumeration_ends_with_its_own_reply(
    id: u32,
    seq: i32,
    core_id: u32,
    pending: i32,
    r: bool,
)
    requires
        call_ensures(enumeration_done, (id, seq, core_id, pending), r),
    ensures
        id == core_id && seq == pending ==> r,
        id != core_id ==> !r,
        seq != pending ==> !r,
{
}

/// Streams differ in one property: that of a sink captures its monitor.
pub proof fn streams_differ_in_the_monitor(
    plain: Vec<StreamProperty>,
    monitor: Vec<StreamProperty>,
)
    requires
        call_ensures(stream_properties, (false,), plain),
        call_ensures(stream_properties, (true,), monitor),
    ensures
        plain@.len() == 3,
        plain@[0] == StreamProperty::AudioType,
        plain@[1] == StreamProperty::CaptureCategory,
        plain@[2] == StreamProperty::MusicRole,
        monitor@ == plain@.push(StreamProperty::CaptureSink),
{
}

/// A rate is negotiated by a format of raw audio that has one, and by nothing else.
pub proof fn raw_formats_negotiate_their_rate(change: &ParamChange, r: Option<u32>)
    requires
        call_ensures(param_changed, (change,), r),
    ensures
        r matches Some(rate) ==> rate > 0 && change.rate == Some(rate) && change.has_value
            && change.is_format && change.is_raw_audio,
        change.has_value && change.is_format && change.is_raw_audio ==> (change.rate matches Some(
            rate,
        ) ==> (rate > 0 ==> r == Some(rate))),
{
}

/// Samples come of a buffer exactly if it has at least one and all that it says are
/// there.
pub proof fn full_buffers_are_decoded(
    bytes: &[u8],
    chunk_size: u32,
    channels: u32,
    r: Option<CapturedFrames>,
)
    requires
        call_ensures(decode_frames, (bytes, chunk_size, channels), r),
    ensures
        chunk_size < 4 ==> r is None,
        bytes@.len() + 3 < chunk_size ==> r is None,
        chunk_size >= 4 && bytes@.len() >= chunk_size ==> r is Some,
        chunk_size >= 4 && bytes@.len() >= chunk_size - chunk_size % 4 ==> r is Some,
        bytes@.len() < chunk_size - chunk_size % 4 ==> r is None,
{
}

/// Nothing but a last frame that is not whole is left out of a buffer.
pub proof fn only_a_partial_frame_is_left_out(
    bytes: &[u8],
    chunk_size: u32,
    channels: u32,
    r: Option<CapturedFrames>,
)
    requires
        call_ensures(decode_frames, (bytes, chunk_size, channels), r),
    ensures
        r matches Some(f) ==> {
            &&& f.channels > 0
            &&& channels > 0 ==> f.channels == channels
            &&& channels == 0 ==> f.channels == 1
            &&& f.samples@.len() % f.channels as nat == 0
            &&& 4 * f.samples@.len() <= chunk_size
            &&& chunk_size as int / 4 < f.samples@.len() + f.channels
        },
{
    if r is Some {
        let f = r->0;
        let n = chunk_size as int / 4;
        let d = f.channels as int;
        let frames = frame_count(chunk_size, channels);
        vstd::arithmetic::div_mod::lemma_fundamental_div_mod(n, d);
        vstd::arithmetic::div_mod::lemma_mod_bound(n, d);
        assert(frames * d == d * frames) by (nonlinear_arith);
        assert(0 <= frames) by (nonlinear_arith)
            requires
                n == d * frames + n % d,
                n % d < d,
                0 <= n,
                0 < d,
        ;
        vstd::arithmetic::div_mod::lemma_mod_multiples_basic(frames, d);
    }
}

/// Every sample is the word of its four bytes, the lowest first, in the order in
/// which they stand.
pub proof fn samples_are_the_words_of_the_buffer(
    bytes: &[u8],
    chunk_size: u32,
    channels: u32,
    r: Option<CapturedFrames>,
    k: int,
)
    requires
        call_ensures(decode_frames, (bytes, chunk_size, channels), r),
        r is Some,
        0 <= k < r->0.samples@.len(),
    ensures
        r->0.samples@[k] == bytes@[4 * k] + 256 * bytes@[4 * k + 1] + 65536 * bytes@[4 * k + 2]
            + 16777216 * bytes@[4 * k + 3],
{
}

/// Samples for which there is room all go in, in order; of more, at least as many as
/// there is room for, from the front.
pub proof fn samples_go_in_while_there_is_room(
    producer: &mut SampleProducer,
    mono: &Vec<u32>,
    count: usize,
)
    requires
        call_ensures(deliver, (producer, mono), count),
    ensures
        mono@.len() <= ring::room(*old(producer)) ==> {
            &&& count == mono@.len()
            &&& ring::pushed(*final(producer)) == ring::pushed(*old(producer)) + mono@
        },
        mono@.len() > ring::room(*old(producer)) ==> ring::room(*old(producer)) <= count
            <= mono@.len(),
        ring::pushed(*final(producer)).len() == ring::pushed(*old(producer)).len() + count,
        forall|i: int|
            0 <= i < count ==> ring::pushed(*final(producer))[ring::pushed(*old(producer)).len()
                + i] == #[trigger] mono@[i],
        forall|i: int|
            0 <= i < ring::pushed(*old(producer)).len() ==> ring::pushed(*final(producer))[i]
                == #[trigger] ring::pushed(*old(producer))[i],
{
    assert(mono@.take(mono@.len() as int) =~= mono@);
}

/// What is drained is what comes out next: nothing is lost or repeated, and all that
/// was known to wait is there, up to what a ring of 16384 places can hold.
pub proof fn what_is_drained_comes_out_next(engine: &mut AudioEngine, out: &mut Vec<u32>)
    requires
        call_ensures(AudioEngine::drain_samples, (engine, out), ()),
    ensures
        ring::waiting(old(engine).consumer) <= final(out)@.len() <= 16384,
        ring::popped(final(engine).consumer).len() == ring::popped(old(engine).consumer).len()
            + final(out)@.len(),
        forall|i: int|
            0 <= i < final(out)@.len() ==> ring::popped(
                final(engine).consumer,
            )[ring::popped(old(engine).consumer).len() + i] == #[trigger] final(out)@[i],
        forall|i: int|
            0 <= i < ring::popped(old(engine).consumer).len() ==> ring::popped(
                final(engine).consumer,
            )[i] == #[trigger] ring::popped(old(engine).consumer)[i],
        ring::consumer_lane(final(engine).consumer) == ring::consumer_lane(old(engine).consumer),
{
}

/// Exactly as many samples are taken as were asked for.
pub proof fn as_many_are_taken_as_asked(engine: &mut AudioEngine, n: usize, out: &mut Vec<u32>)
    requires
        call_ensures(AudioEngine::take_waiting, (engine, n, out), ()),
    ensures
        final(out)@.len() == n,
        ring::popped(final(engine).consumer) == ring::popped(old(engine).consumer) + final(out)@,
{
}

/// The old stream goes before the new one comes, and the new one is what the command
/// says.
pub proof fn the_old_stream_goes_first(command: Command, held: bool, r: Vec<LoopAction>)
    requires
        call_ensures(handle_command, (command, held), r),
    ensures
        command matches Command::Connect { target, capture_sink } ==> r@.last() == (
        LoopAction::Connect { target, capture_sink }),
        held ==> r@.len() == 2 && r@[0] == LoopAction::Disconnect,
        !held ==> r@.len() == 1,
{
}

/// A chosen source is captured by its id, as a sink if it is one.
pub proof fn a_chosen_source_is_captured(engine: &AudioEngine, src: &SourceInfo, r: Command)
    requires
        call_ensures(AudioEngine::connect_to, (engine, src), r),
    ensures
        r matches Command::Connect { target, capture_sink } && target == Some(src.id)
            && capture_sink == src.is_sink,
{
}

/// Capture starts with an empty ring of 16384 places, no sources, a rate of 48000
/// and the default target of the kind asked for.
pub proof fn capture_starts_empty(capture_system_output: bool, r: (AudioEngine, Capture))
    requires
        call_ensures(AudioEngine::start, (capture_system_output,), r),
    ensures
        ring::room(r.1.producer) == 16384,
        ring::pushed(r.1.producer).len() == 0,
        ring::popped(r.0.consumer).len() == 0,
        ring::waiting(r.0.consumer) == 0,
        ring::producer_lane(r.1.producer) == ring::consumer_lane(r.0.consumer),
        r.1.state.sources@.len() == 0,
        r.1.state.sample_rate == 48000,
        r.1.initial matches Command::Connect { target, capture_sink } && target is None
            && capture_sink == capture_system_output,
{
}

/// Sources and rate are handed out as the capture thread left them.
pub proof fn the_state_is_handed_out(
    engine: &AudioEngine,
    state: &CaptureState,
    sources: Vec<SourceInfo>,
    rate: u32,
)
    requires
        call_ensures(AudioEngine::sources, (engine, state), sources),
        call_ensures(AudioEngine::sample_rate, (engine, state), rate),
    ensures
        sources@.len() == state.sources@.len(),
        forall|i: int| 0 <= i < sources@.len() ==> #[trigger] sources@[i] == state.sources@[i],
        rate == state.sample_rate,
{
}

/// Every event of the audio server is taken in by a list without two targets of one
/// id, at any rate but zero.
pub proof fn every_registry_event_is_taken_in(
    state: &mut CaptureState,
    global: &GlobalObject,
    id: u32,
    rate: u32,
)
    requires
        forall|i: int, j: int|
            0 <= i < j < old(state).sources@.len() ==> (#[trigger] old(state).sources@[i]).id != (
            #[trigger] old(state).sources@[j]).id,
        old(state).sample_rate > 0,
    ensures
        call_requires(CaptureState::global_added, (state, global)),
        call_requires(CaptureState::global_removed, (state, id)),
        call_requires(CaptureState::rate_negotiated, (state, rate)),
{
}

/// An engine that was started can be drained, and can be drained again.
pub proof fn engines_can_be_drained(
    capture_system_output: bool,
    started: (AudioEngine, Capture),
    engine: &mut AudioEngine,
    out: &mut Vec<u32>,
    again: &mut AudioEngine,
    other: &mut Vec<u32>,
)
    requires
        call_ensures(AudioEngine::start, (capture_system_output,), started),
        *old(engine) == started.0,
        call_ensures(AudioEngine::drain_samples, (engine, out), ()),
        *old(again) == *final(engine),
    ensures
        call_requires(AudioEngine::drain_samples, (engine, out)),
        call_requires(AudioEngine::drain_samples, (again, other)),
{
}

} // verus!
