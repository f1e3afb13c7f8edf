//! The mirrored metadata records: envelope, batch, frame, object and
//! bounding box, modeled over plain values.
//!
//! The native layout hangs a type-tagged envelope off a pipeline buffer;
//! when the tag names batch metadata, the envelope's payload aggregates
//! per-frame records, each of which carries per-object records, both through
//! intrusive lists.  Here every record holds plain fields, the lists are the
//! indexed arenas of [`crate::nvlist`], and the payload is exposed only
//! behind the tag check, so a mis-tagged envelope can never be read as a
//! batch.

use crate::label::first_nul;
use crate::label::label_bytes;
use crate::label::label_prefix;
use crate::label::label_to_text;
use crate::label::LabelError;
use crate::nvlist::chain_data;
use crate::nvlist::linked_head;
use crate::nvlist::link_nodes;
use crate::nvlist::list_wf;
use crate::nvlist::GListIter;
use crate::nvlist::GListMem;
use vstd::prelude::*;
use vstd::utf8::decode_utf8;
use vstd::utf8::valid_utf8;

verus! {

/// Type tag reserved for custom metadata attached through the pipeline
/// layer.
pub const NVDS_GST_CUSTOM_META: i32 = 4096;

/// Type tag of an envelope whose payload is batch metadata.
pub const NVDS_GST_BATCH_META: i32 = NVDS_GST_CUSTOM_META + 1;

/// An axis-aligned bounding box.  Each field holds the IEEE-754 bit pattern
/// of the 32-bit floating-point coordinate the native layout stores, so that
/// the mapping from the foreign memory is a bit-exact copy.
#[allow(non_camel_case_types)]
#[derive(Clone, Copy, Debug, PartialEq, Eq, Structural)]
pub struct NvBbox_Coords {
    /// Bit pattern of the left edge coordinate.
    pub left_bits: u32,
    /// Bit pattern of the top edge coordinate.
    pub top_bits: u32,
    /// Bit pattern of the box width.
    pub width_bits: u32,
    /// Bit pattern of the box height.
    pub height_bits: u32,
}

/// One detected object of a frame: class, tracking identity, detector and
/// tracker confidence, the raw label field, and the detector- and
/// tracker-reported bounding boxes.
#[derive(Debug)]
pub struct NvDsObjectMeta {
    /// Identifier of the detected class.
    pub class_id: i32,
    /// Persistent tracking identifier of the object.
    pub object_id: u64,
    /// IEEE-754 bit pattern of the detector's confidence score.
    pub confidence_bits: u32,
    /// IEEE-754 bit pattern of the tracker's confidence score.
    pub tracker_confidence_bits: u32,
    /// The raw, null-terminated label field as the native layout stores it.
    pub obj_label: Vec<u8>,
    /// Bounding box reported by the detector.
    pub detector_bbox_info: NvBbox_Coords,
    /// Bounding box reported by the tracker.
    pub tracker_bbox_info: NvBbox_Coords,
}

impl NvDsObjectMeta {
    /// Identifier of the detected class.
    pub fn class_id(&self) -> (r: i32)
        ensures
            r == self.class_id,
    {
        self.class_id
    }

    /// Persistent tracking identifier of the object.
    pub fn object_id(&self) -> (r: u64)
        ensures
            r == self.object_id,
    {
        self.object_id
    }

    /// Bit pattern of the detector's confidence score.
    pub fn confidence(&self) -> (r: u32)
        ensures
            r == self.confidence_bits,
    {
        self.confidence_bits
    }

    /// Bit pattern of the tracker's confidence score.
    pub fn tracker_confidence(&self) -> (r: u32)
        ensures
            r == self.tracker_confidence_bits,
    {
        self.tracker_confidence_bits
    }

    /// The label bytes before the field's null terminator, or `None` when
    /// the field is unterminated.
    pub fn label(&self) -> (r: Option<Vec<u8>>)
        ensures
            r is Some <==> first_nul(self.obj_label@) is Some,
            r matches Some(v) ==> v@ == label_bytes(self.obj_label@),
    {
        label_prefix(&self.obj_label)
    }

    /// The label converted to validated text, or a distinct error when the
    /// field is unterminated or not validly encoded.
    pub fn label_text(&self) -> (r: Result<Vec<char>, LabelError>)
        ensures
            r is Ok <==> (first_nul(self.obj_label@) is Some && valid_utf8(
                label_bytes(self.obj_label@),
            )),
            r matches Ok(v) ==> v@ == decode_utf8(label_bytes(self.obj_label@)),
            r == Err::<Vec<char>, LabelError>(LabelError::Unterminated) <==> first_nul(
                self.obj_label@,
            ) is None,
            r == Err::<Vec<char>, LabelError>(LabelError::InvalidEncoding) <==> (first_nul(
                self.obj_label@,
            ) is Some && !valid_utf8(label_bytes(self.obj_label@))),
    {
        label_to_text(&self.obj_label)
    }

    /// The detector-reported bounding box, every field carried through
    /// unchanged.
    pub fn detector_bbox(&self) -> (r: &NvBbox_Coords)
        ensures
            *r == self.detector_bbox_info,
    {
        &self.detector_bbox_info
    }

    /// The tracker-reported bounding box, every field carried through
    /// unchanged.
    pub fn tracker_bbox(&self) -> (r: &NvBbox_Coords)
        ensures
            *r == self.tracker_bbox_info,
    {
        &self.tracker_bbox_info
    }
}

/// One processed frame: stream identity, geometry, counters and timestamps,
/// and the intrusive list of its detected objects.
#[derive(Debug)]
pub struct NvDsFrameMeta {
    /// Identifier of the stream the frame came from.
    pub source_id: u32,
    /// Monotonically increasing frame counter.
    pub frame_num: i32,
    /// Presentation timestamp of the buffer, in nanoseconds.
    pub buf_pts: u64,
    /// Network time reference of the frame, in nanoseconds.
    pub ntp_timestamp: u64,
    /// Width of the source frame, in pixels.
    pub source_frame_width: u32,
    /// Height of the source frame, in pixels.
    pub source_frame_height: u32,
    /// Number of object records on the frame's list.
    pub num_obj_meta: u32,
    /// Node memory of the object list.
    pub obj_meta_mem: GListMem,
    /// Head of the object list.
    pub obj_meta_head: Option<usize>,
    /// The object records the list's payload handles address.
    pub objects: Vec<NvDsObjectMeta>,
}

impl NvDsFrameMeta {
    /// The object handles on the frame's list, in link order.
    pub open spec fn obj_chain(self) -> Seq<usize> {
        chain_data(self.obj_meta_mem.nodes@, self.obj_meta_head)
    }

    /// A well-formed frame: the object list walk terminates inside its
    /// arena, every handle it yields addresses an object record, and the
    /// stored object count equals the list's length.
    pub open spec fn wf(self) -> bool {
        &&& list_wf(self.obj_meta_mem.nodes@, self.obj_meta_head)
        &&& forall|k: int|
            0 <= k < self.obj_chain().len() ==> (#[trigger] self.obj_chain()[k] as int)
                < self.objects@.len()
        &&& self.num_obj_meta as int == self.obj_chain().len()
    }

    /// Builds a frame whose `M` objects are linked head-to-tail, so that
    /// the object list yields the handles `0 .. M` in order.
    pub fn new(
        source_id: u32,
        frame_num: i32,
        buf_pts: u64,
        ntp_timestamp: u64,
        source_frame_width: u32,
        source_frame_height: u32,
        objects: Vec<NvDsObjectMeta>,
    ) -> (r: NvDsFrameMeta)
        requires
            objects@.len() <= u32::MAX,
        ensures
            r.wf(),
            r.source_id == source_id,
            r.frame_num == frame_num,
            r.buf_pts == buf_pts,
            r.ntp_timestamp == ntp_timestamp,
            r.source_frame_width == source_frame_width,
            r.source_frame_height == source_frame_height,
            r.num_obj_meta as int == objects@.len(),
            r.objects == objects,
            r.obj_meta_head == linked_head(objects@.len()),
            r.obj_chain() == Seq::new(objects@.len(), |t: int| t as usize),
    {
        let m = objects.len();
        let mut handles: Vec<usize> = Vec::new();
        let mut k: usize = 0;
        while k < m
            invariant
                k <= m,
                handles@.len() == k,
                forall|t: int| 0 <= t < k ==> (#[trigger] handles@[t]) == t as usize,
            decreases m - k,
        {
            handles.push(k);
            k += 1;
        }
        let obj_meta_mem = link_nodes(&handles);
        let obj_meta_head = if m > 0 {
            Some(0usize)
        } else {
            None
        };
        proof {
            assert(handles@ =~= Seq::new(m as nat, |t: int| t as usize));
            assert(obj_meta_head == linked_head(m as nat));
        }
        NvDsFrameMeta {
            source_id,
            frame_num,
            buf_pts,
            ntp_timestamp,
            source_frame_width,
            source_frame_height,
            num_obj_meta: m as u32,
            obj_meta_mem,
            obj_meta_head,
            objects,
        }
    }

    /// Starts a traversal of the frame's object list at its head.
    pub fn object_meta_list(&self) -> (r: GListIter)
        ensures
            r.cur == self.obj_meta_head,
    {
        GListIter::from_glib_full(self.obj_meta_head)
    }

    /// Traverses the whole object list, returning every object handle in
    /// link order — exactly `num_obj_meta` of them for a well-formed frame.
    /// The walk only clears `prev` links inside the node memory; the
    /// records, the handles and every later traversal are unchanged.
    pub fn object_handles(&mut self) -> (r: Vec<usize>)
        requires
            old(self).wf(),
        ensures
            r@ == old(self).obj_chain(),
            r@.len() == old(self).num_obj_meta as int,
            final(self).wf(),
            final(self).obj_chain() == old(self).obj_chain(),
            final(self).source_id == old(self).source_id,
            final(self).frame_num == old(self).frame_num,
            final(self).buf_pts == old(self).buf_pts,
            final(self).ntp_timestamp == old(self).ntp_timestamp,
            final(self).source_frame_width == old(self).source_frame_width,
            final(self).source_frame_height == old(self).source_frame_height,
            final(self).num_obj_meta == old(self).num_obj_meta,
            final(self).obj_meta_head == old(self).obj_meta_head,
            final(self).objects == old(self).objects,
    {
        let ghost nodes0 = self.obj_meta_mem.nodes@;
        let mut it = GListIter::from_glib_full(self.obj_meta_head);
        let r = it.collect_handles(&mut self.obj_meta_mem);
        proof {
            crate::nvlist::lemma_traversal_repeatable(
                nodes0,
                self.obj_meta_mem.nodes@,
                self.obj_meta_head,
            );
        }
        r
    }

    /// Law: a well-formed frame's object list yields exactly one handle per
    /// listed object — `num_obj_meta` of them — and a frame whose list head
    /// is null yields none.
    pub proof fn lemma_object_iteration_count(self)
        requires
            self.wf(),
        ensures
            self.obj_chain().len() == self.num_obj_meta as int,
            self.obj_meta_head is None ==> self.obj_chain().len() == 0,
    {
        if self.obj_meta_head is None {
            crate::nvlist::lemma_null_head(self.obj_meta_mem.nodes@);
        }
    }

    /// The object record a handle addresses.
    pub fn object_at(&self, handle: usize) -> (r: &NvDsObjectMeta)
        requires
            (handle as int) < self.objects@.len(),
        ensures
            r == self.objects@[handle as int],
    {
        &self.objects[handle]
    }

    /// Identifier of the stream the frame came from.
    pub fn source_id(&self) -> (r: u32)
        ensures
            r == self.source_id,
    {
        self.source_id
    }

    /// Monotonically increasing frame counter.
    pub fn frame_num(&self) -> (r: i32)
        ensures
            r == self.frame_num,
    {
        self.frame_num
    }

    /// Presentation timestamp of the buffer, in nanoseconds.
    pub fn buf_pts(&self) -> (r: u64)
        ensures
            r == self.buf_pts,
    {
        self.buf_pts
    }

    /// Network time reference of the frame, in nanoseconds.
    pub fn ntp_timestamp(&self) -> (r: u64)
        ensures
            r == self.ntp_timestamp,
    {
        self.ntp_timestamp
    }

    /// Width of the source frame, in pixels.
    pub fn source_frame_width(&self) -> (r: u32)
        ensures
            r == self.source_frame_width,
    {
        self.source_frame_width
    }

    /// Height of the source frame, in pixels.
    pub fn source_frame_height(&self) -> (r: u32)
        ensures
            r == self.source_frame_height,
    {
        self.source_frame_height
    }

    /// Number of object records on the frame's list.
    pub fn num_obj_meta(&self) -> (r: u32)
        ensures
            r == self.num_obj_meta,
    {
        self.num_obj_meta
    }
}

/// The batch payload: capacity and count of the contained frames, and the
/// intrusive list of the frame records themselves.
#[derive(Debug)]
pub struct NvDsBatchMeta {
    /// Capacity of the batch, in frames.
    pub max_frames_in_batch: u32,
    /// Number of frame records on the batch's list.
    pub num_frames_in_batch: u32,
    /// Node memory of the frame list.
    pub frame_meta_mem: GListMem,
    /// Head of the frame list.
    pub frame_meta_head: Option<usize>,
    /// The frame records the list's payload handles address.
    pub frames: Vec<NvDsFrameMeta>,
}

impl NvDsBatchMeta {
    /// The frame handles on the batch's list, in link order.
    pub open spec fn frame_chain(self) -> Seq<usize> {
        chain_data(self.frame_meta_mem.nodes@, self.frame_meta_head)
    }

    /// A well-formed batch: the frame list walk terminates inside its
    /// arena, every handle addresses a well-formed frame record, the stored
    /// frame count equals the list's length, and the count never exceeds
    /// the capacity.
    pub open spec fn wf(self) -> bool {
        &&& list_wf(self.frame_meta_mem.nodes@, self.frame_meta_head)
        &&& forall|k: int|
            0 <= k < self.frame_chain().len() ==> (#[trigger] self.frame_chain()[k] as int)
                < self.frames@.len()
        &&& self.num_frames_in_batch as int == self.frame_chain().len()
        &&& self.num_frames_in_batch <= self.max_frames_in_batch
        &&& forall|k: int| 0 <= k < self.frames@.len() ==> (#[trigger] self.frames@[k]).wf()
    }

    /// Builds a batch whose `N` frames are linked head-to-tail, so that the
    /// frame list yields the handles `0 .. N` in order.
    pub fn from_frames(max_frames_in_batch: u32, frames: Vec<NvDsFrameMeta>) -> (r: NvDsBatchMeta)
        requires
            frames@.len() <= max_frames_in_batch,
            forall|k: int| 0 <= k < frames@.len() ==> (#[trigger] frames@[k]).wf(),
        ensures
            r.wf(),
            r.max_frames_in_batch == max_frames_in_batch,
            r.num_frames_in_batch as int == frames@.len(),
            r.frames == frames,
            r.frame_meta_head == linked_head(frames@.len()),
            r.frame_chain() == Seq::new(frames@.len(), |t: int| t as usize),
    {
        let n = frames.len();
        let mut handles: Vec<usize> = Vec::new();
        let mut k: usize = 0;
        while k < n
            invariant
                k <= n,
                handles@.len() == k,
                forall|t: int| 0 <= t < k ==> (#[trigger] handles@[t]) == t as usize,
            decreases n - k,
        {
            handles.push(k);
            k += 1;
        }
        let frame_meta_mem = link_nodes(&handles);
        let frame_meta_head = if n > 0 {
            Some(0usize)
        } else {
            None
        };
        proof {
            assert(handles@ =~= Seq::new(n as nat, |t: int| t as usize));
            assert(frame_meta_head == linked_head(n as nat));
        }
        NvDsBatchMeta {
            max_frames_in_batch,
            num_frames_in_batch: n as u32,
            frame_meta_mem,
            frame_meta_head,
            frames,
        }
    }

    /// Capacity of the batch, in frames.
    pub fn max_frames_in_batch(&self) -> (r: u32)
        ensures
            r == self.max_frames_in_batch,
    {
        self.max_frames_in_batch
    }

    /// Number of frame records on the batch's list.
    pub fn num_frames_in_batch(&self) -> (r: u32)
        ensures
            r == self.num_frames_in_batch,
    {
        self.num_frames_in_batch
    }

    /// Starts a traversal of the batch's frame list at its head.
    pub fn frame_meta_list(&self) -> (r: GListIter)
        ensures
            r.cur == self.frame_meta_head,
    {
        GListIter::from_glib_full(self.frame_meta_head)
    }

    /// Traverses the whole frame list, returning every frame handle in link
    /// order — exactly `num_frames_in_batch` of them for a well-formed
    /// batch.  The walk only clears `prev` links inside the node memory;
    /// the records, the handles and every later traversal are unchanged.
    pub fn frame_handles(&mut self) -> (r: Vec<usize>)
        requires
            old(self).wf(),
        ensures
            r@ == old(self).frame_chain(),
            r@.len() == old(self).num_frames_in_batch as int,
            final(self).wf(),
            final(self).frame_chain() == old(self).frame_chain(),
            final(self).max_frames_in_batch == old(self).max_frames_in_batch,
            final(self).num_frames_in_batch == old(self).num_frames_in_batch,
            final(self).frame_meta_head == old(self).frame_meta_head,
            final(self).frames == old(self).frames,
    {
        let ghost nodes0 = self.frame_meta_mem.nodes@;
        let mut it = GListIter::from_glib_full(self.frame_meta_head);
        let r = it.collect_handles(&mut self.frame_meta_mem);
        proof {
            crate::nvlist::lemma_traversal_repeatable(
                nodes0,
                self.frame_meta_mem.nodes@,
                self.frame_meta_head,
            );
        }
        r
    }

    /// Law: a well-formed batch's frame list yields exactly one handle per
    /// listed frame — `num_frames_in_batch` of them — and a batch whose list
    /// head is null yields none.
    pub proof fn lemma_frame_iteration_count(self)
        requires
            self.wf(),
        ensures
            self.frame_chain().len() == self.num_frames_in_batch as int,
            self.frame_meta_head is None ==> self.frame_chain().len() == 0,
    {
        if self.frame_meta_head is None {
            crate::nvlist::lemma_null_head(self.frame_meta_mem.nodes@);
        }
    }

    /// The frame record a handle addresses.
    pub fn frame_at(&self, handle: usize) -> (r: &NvDsFrameMeta)
        requires
            (handle as int) < self.frames@.len(),
        ensures
            r == self.frames@[handle as int],
    {
        &self.frames[handle]
    }
}

/// The metadata envelope a pipeline buffer carries: a type tag and, when
/// the tag names batch metadata, the batch payload.  The payload of an
/// envelope with any other tag is absent here, mirroring the untyped
/// pointer that must never be read without checking the tag first.
#[derive(Debug)]
pub struct NvDsMeta {
    /// The envelope's type tag.
    pub meta_type: i32,
    /// The batch payload, present exactly when the tag names it.
    pub batch: Option<NvDsBatchMeta>,
}

impl NvDsMeta {
    /// A well-formed envelope: the batch payload is present exactly when
    /// the tag names batch metadata, and it is itself well formed.
    pub open spec fn wf(self) -> bool {
        &&& (self.meta_type == NVDS_GST_BATCH_META <==> self.batch is Some)
        &&& (self.batch matches Some(b) ==> b.wf())
    }

    /// Wraps a batch payload in an envelope tagged as batch metadata.
    pub fn new_batch(batch: NvDsBatchMeta) -> (r: NvDsMeta)
        ensures
            r.meta_type == NVDS_GST_BATCH_META,
            r.batch == Some(batch),
            batch.wf() ==> r.wf(),
    {
        NvDsMeta { meta_type: NVDS_GST_BATCH_META, batch: Some(batch) }
    }

    /// An envelope carrying no batch payload, under any tag that does not
    /// name batch metadata.
    pub fn new_no_payload(meta_type: i32) -> (r: NvDsMeta)
        requires
            meta_type != NVDS_GST_BATCH_META,
        ensures
            r.meta_type == meta_type,
            r.batch is None,
            r.wf(),
    {
        NvDsMeta { meta_type, batch: None }
    }

    /// The envelope's type tag.
    pub fn meta_type(&self) -> (r: i32)
        ensures
            r == self.meta_type,
    {
        self.meta_type
    }

    /// The batch payload, behind the tag check: an envelope whose tag does
    /// not name batch metadata reports absence, and the payload is never
    /// read under a foreign tag.
    pub fn get_batch_meta(&self) -> (r: Option<&NvDsBatchMeta>)
        ensures
            r is Some <==> (self.meta_type == NVDS_GST_BATCH_META && self.batch is Some),
            r matches Some(b) ==> self.batch == Some(*b),
            self.wf() ==> (r is Some <==> self.meta_type == NVDS_GST_BATCH_META),
    {
        if self.meta_type == NVDS_GST_BATCH_META {
            self.batch.as_ref()
        } else {
            None
        }
    }
}

} // verus!
