//! Who is using the camera, the microphone or the screen: the PipeWire
//! capture streams and the processes holding the webcam open.

use crate::text::str_eq;
use vstd::prelude::*;

verus! {

/// What a capture stream records.
#[derive(Clone, Copy, PartialEq, Eq, Structural, Debug)]
pub enum Media {
    Video,
    Audio,
}

/// A PipeWire capture stream.
#[derive(Clone, Copy, PartialEq, Eq, Structural, Debug)]
pub struct ApplicationNode {
    pub id: u32,
    pub media: Media,
}

/// The capture streams, and how many handles hold the webcam open.
pub struct PrivacyData {
    nodes: Vec<ApplicationNode>,
    webcam_access: i32,
}

/// A change the listeners report.
#[derive(Clone, Copy, PartialEq, Eq, Structural, Debug)]
pub enum PrivacyEvent {
    AddNode(ApplicationNode),
    RemoveNode(u32),
    WebcamOpen,
    WebcamClose,
}

/// The stream kind of a PipeWire `media.class`; other classes are not
/// capture streams.
pub open spec fn media_of_class(class: Seq<char>) -> Option<Media> {
    if class == "Stream/Input/Video"@ {
        Some(Media::Video)
    } else if class == "Stream/Input/Audio"@ {
        Some(Media::Audio)
    } else {
        None
    }
}

pub fn media_from_class(class: &str) -> (r: Option<Media>)
    ensures
        r == media_of_class(class@),
{
    if str_eq(class, "Stream/Input/Video") {
        Some(Media::Video)
    } else if str_eq(class, "Stream/Input/Audio") {
        Some(Media::Audio)
    } else {
        None
    }
}

/// Some stream records the given media.
pub open spec fn has_media(nodes: Seq<ApplicationNode>, m: Media) -> bool {
    exists|i: int| 0 <= i < nodes.len() && (#[trigger] nodes[i]).media == m
}

impl PrivacyData {
    /// The handle count never drops below zero.
    pub closed spec fn wf(&self) -> bool {
        self.webcam_access >= 0
    }

    pub closed spec fn nodes_view(&self) -> Seq<ApplicationNode> {
        self.nodes@
    }

    pub closed spec fn webcam_count(&self) -> int {
        self.webcam_access as int
    }

    /// No stream, and the webcam held by `webcam_access` handles.
    pub fn new(webcam_access: i32) -> (r: PrivacyData)
        requires
            webcam_access >= 0,
        ensures
            r.wf(),
            r.nodes_view() == Seq::<ApplicationNode>::empty(),
            r.webcam_count() == webcam_access,
    {
        PrivacyData { nodes: Vec::new(), webcam_access }
    }

    pub fn no_access(&self) -> (r: bool)
        ensures
            r == (self.nodes_view().len() == 0 && self.webcam_count() == 0),
    {
        self.nodes.len() == 0 && self.webcam_access == 0
    }

    pub fn microphone_access(&self) -> (r: bool)
        ensures
            r == has_media(self.nodes_view(), Media::Audio),
    {
        let mut i: usize = 0;
        while i < self.nodes.len()
            invariant
                i <= self.nodes@.len(),
                forall|j: int| 0 <= j < i ==> (#[trigger] self.nodes@[j]).media != Media::Audio,
            decreases self.nodes@.len() - i,
        {
            if self.nodes[i].media == Media::Audio {
                return true;
            }
            i = i + 1;
        }
        false
    }

    pub fn webcam_access(&self) -> (r: bool)
        ensures
            r == (self.webcam_count() > 0),
    {
        self.webcam_access > 0
    }

    pub fn screenshare_access(&self) -> (r: bool)
        ensures
            r == has_media(self.nodes_view(), Media::Video),
    {
        let mut i: usize = 0;
        while i < self.nodes.len()
            invariant
                i <= self.nodes@.len(),
                forall|j: int| 0 <= j < i ==> (#[trigger] self.nodes@[j]).media != Media::Video,
            decreases self.nodes@.len() - i,
        {
            if self.nodes[i].media == Media::Video {
                return true;
            }
            i = i + 1;
        }
        false
    }

    /// Applies a change: a stream is added or every stream of the id is
    /// removed; an open counts one more handle, a close one less but never
    /// below zero.
    pub fn update(&mut self, event: PrivacyEvent)
        requires
            old(self).wf(),
            event == PrivacyEvent::WebcamOpen ==> old(self).webcam_count() < i32::MAX,
        ensures
            final(self).wf(),
            match event {
                PrivacyEvent::AddNode(n) => final(self).nodes_view() == old(self).nodes_view().push(n)
                    && final(self).webcam_count() == old(self).webcam_count(),
                PrivacyEvent::RemoveNode(id) => final(self).nodes_view() == old(
                    self,
                ).nodes_view().filter(|n: ApplicationNode| n.id != id) && final(self).webcam_count()
                    == old(self).webcam_count(),
                PrivacyEvent::WebcamOpen => final(self).nodes_view() == old(self).nodes_view()
                    && final(self).webcam_count() == old(self).webcam_count() + 1,
                PrivacyEvent::WebcamClose => final(self).nodes_view() == old(self).nodes_view()
                    && final(self).webcam_count() == (if old(self).webcam_count() > 0 {
                    old(self).webcam_count() - 1
                } else {
                    0
                }),
            },
    {
        match event {
            PrivacyEvent::AddNode(node) => {
                self.nodes.push(node);
            },
            PrivacyEvent::RemoveNode(id) => {
                let ghost before = self.nodes@;
                let mut kept: Vec<ApplicationNode> = Vec::new();
                let mut i: usize = 0;
                while i < self.nodes.len()
                    invariant
                        self.nodes@ == before,
                        i <= before.len(),
                        kept@ == before.take(i as int).filter(|n: ApplicationNode| n.id != id),
                    decreases before.len() - i,
                {
                    proof {
                        before.take(i as int).lemma_filter_push(
                            before[i as int],
                            |n: ApplicationNode| n.id != id,
                        );
                        assert(before.take(i + 1) =~= before.take(i as int).push(before[i as int]));
                    }
                    if self.nodes[i].id != id {
                        kept.push(self.nodes[i]);
                    }
                    i = i + 1;
                }
                assert(before.take(before.len() as int) =~= before);
                self.nodes = kept;
            },
            PrivacyEvent::WebcamOpen => {
                self.webcam_access = self.webcam_access + 1;
            },
            PrivacyEvent::WebcamClose => {
                self.webcam_access = if self.webcam_access - 1 > 0 {
                    self.webcam_access - 1
                } else {
                    0
                };
            },
        }
    }
}

/// The service state the bar holds.
pub struct PrivacyService {
    pub data: PrivacyData,
}

/// Nothing is accessed exactly when no stream records and the webcam is
/// free: the streams are either video or audio, and the handle count is
/// never negative.
pub proof fn law_no_access_is_none_of_the_three(d: PrivacyData)
    requires
        d.wf(),
    ensures
        (d.nodes_view().len() == 0 && d.webcam_count() == 0) <==> !(has_media(
            d.nodes_view(),
            Media::Audio,
        ) || d.webcam_count() > 0 || has_media(d.nodes_view(), Media::Video)),
{
    if d.nodes_view().len() > 0 {
        let n = d.nodes_view()[0];
        match n.media {
            Media::Audio => assert(has_media(d.nodes_view(), Media::Audio)),
            Media::Video => assert(has_media(d.nodes_view(), Media::Video)),
        }
    }
}

} // verus!
