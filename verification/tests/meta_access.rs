use nvdsmeta::NvBbox_Coords;
use nvdsmeta::NvDsBatchMeta;
use nvdsmeta::NvDsFrameMeta;
use nvdsmeta::NvDsMeta;
use nvdsmeta::NvDsObjectMeta;

fn bbox(left: f32, top: f32, width: f32, height: f32) -> NvBbox_Coords {
    NvBbox_Coords {
        left_bits: left.to_bits(),
        top_bits: top.to_bits(),
        width_bits: width.to_bits(),
        height_bits: height.to_bits(),
    }
}

fn obj(class_id: i32, object_id: u64, confidence: f32) -> NvDsObjectMeta {
    NvDsObjectMeta {
        class_id,
        object_id,
        confidence_bits: confidence.to_bits(),
        tracker_confidence_bits: 0.25f32.to_bits(),
        obj_label: vec![0],
        detector_bbox_info: bbox(1.0, 2.0, 3.0, 4.0),
        tracker_bbox_info: bbox(5.0, 6.0, 7.0, 8.0),
    }
}

fn frame(source_id: u32, frame_num: i32, objects: Vec<NvDsObjectMeta>) -> NvDsFrameMeta {
    NvDsFrameMeta::new(source_id, frame_num, 12_345, 1_600_000_000_000_000_000, 1280, 720, objects)
}

#[test]
fn object_iterator_counts_and_orders() {
    let mut f = frame(3, 41, vec![obj(1, 100, 0.5), obj(2, 200, 0.75)]);
    assert_eq!(f.num_obj_meta(), 2);
    let handles = f.object_handles();
    assert_eq!(handles, vec![0, 1]);
    assert_eq!(f.object_at(handles[0]).class_id(), 1);
    assert_eq!(f.object_at(handles[1]).class_id(), 2);
    assert_eq!(f.object_at(handles[1]).object_id(), 200);
}

#[test]
fn empty_object_list_terminates_immediately() {
    let mut f = frame(0, 0, Vec::new());
    assert_eq!(f.num_obj_meta(), 0);
    assert_eq!(f.object_meta_list().cur, None);
    let handles = f.object_handles();
    assert!(handles.is_empty());
}

#[test]
fn frame_iterator_counts_and_orders() {
    let frames = vec![
        frame(0, 7, vec![obj(1, 1, 0.5)]),
        frame(1, 8, Vec::new()),
        frame(2, 9, vec![obj(2, 2, 0.5), obj(3, 3, 0.5)]),
    ];
    let mut b = NvDsBatchMeta::from_frames(4, frames);
    assert_eq!(b.max_frames_in_batch(), 4);
    assert_eq!(b.num_frames_in_batch(), 3);
    let handles = b.frame_handles();
    assert_eq!(handles, vec![0, 1, 2]);
    assert_eq!(b.frame_at(handles[0]).source_id(), 0);
    assert_eq!(b.frame_at(handles[2]).source_id(), 2);
    assert_eq!(b.frame_at(handles[2]).num_obj_meta(), 2);
}

#[test]
fn frame_iteration_twice_is_identical() {
    let frames = vec![frame(0, 1, Vec::new()), frame(1, 2, Vec::new())];
    let mut b = NvDsBatchMeta::from_frames(2, frames);
    let first = b.frame_handles();
    let second = b.frame_handles();
    assert_eq!(first, second);
}

#[test]
fn batch_filled_to_capacity() {
    let frames = vec![frame(0, 1, Vec::new()), frame(1, 2, Vec::new())];
    let mut b = NvDsBatchMeta::from_frames(2, frames);
    assert_eq!(b.max_frames_in_batch(), 2);
    assert_eq!(b.num_frames_in_batch(), 2);
    assert_eq!(b.frame_handles(), vec![0, 1]);
}

#[test]
fn no_payload_reports_absence() {
    let m = NvDsMeta::new_no_payload(nvdsmeta::meta::NVDS_GST_CUSTOM_META);
    assert_eq!(m.meta_type(), nvdsmeta::meta::NVDS_GST_CUSTOM_META);
    assert!(m.get_batch_meta().is_none());
    let other = NvDsMeta::new_no_payload(0);
    assert!(other.get_batch_meta().is_none());
}

#[test]
fn batch_payload_present_behind_tag() {
    let b = NvDsBatchMeta::from_frames(1, vec![frame(5, 1, Vec::new())]);
    let m = NvDsMeta::new_batch(b);
    assert_eq!(m.meta_type(), nvdsmeta::meta::NVDS_GST_BATCH_META);
    let payload = m.get_batch_meta().expect("tagged envelope must expose the batch");
    assert_eq!(payload.num_frames_in_batch(), 1);
}

#[test]
fn bbox_fields_copied_exactly() {
    let o = obj(1, 1, 0.5);
    let d = o.detector_bbox();
    assert_eq!(f32::from_bits(d.left_bits), 1.0);
    assert_eq!(f32::from_bits(d.top_bits), 2.0);
    assert_eq!(f32::from_bits(d.width_bits), 3.0);
    assert_eq!(f32::from_bits(d.height_bits), 4.0);
    assert_eq!(*d, bbox(1.0, 2.0, 3.0, 4.0));
    let t = o.tracker_bbox();
    assert_eq!(*t, bbox(5.0, 6.0, 7.0, 8.0));
}

#[test]
fn object_getters_return_stored_fields() {
    let o = obj(9, 77, 0.5);
    assert_eq!(o.class_id(), 9);
    assert_eq!(o.object_id(), 77);
    assert_eq!(f32::from_bits(o.confidence()), 0.5);
    assert_eq!(f32::from_bits(o.tracker_confidence()), 0.25);
}

#[test]
fn frame_getters_return_stored_fields() {
    let f = frame(3, 41, Vec::new());
    assert_eq!(f.source_id(), 3);
    assert_eq!(f.frame_num(), 41);
    assert_eq!(f.buf_pts(), 12_345);
    assert_eq!(f.ntp_timestamp(), 1_600_000_000_000_000_000);
    assert_eq!(f.source_frame_width(), 1280);
    assert_eq!(f.source_frame_height(), 720);
}
