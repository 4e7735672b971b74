use benilla_app::camera_view::{view_arg, CameraViewQueue, CameraViewRequest, CAMERA_VIEW_COUNT};

/// The notch a bare zoom call steps.
const NOTCH: f32 = 1.0;

/// The zoom pair queues the amount given, and a bare or non-number call steps one notch.
#[test]
fn camera_zoom_queues_the_step_and_defaults_to_one() {
    let mut s: CameraViewQueue<f32> = CameraViewQueue::new();
    s.camera_zoom_out(Some(2.0), NOTCH);
    s.camera_zoom_in(Some(0.5), NOTCH);
    s.camera_zoom_in(None, NOTCH);
    s.camera_zoom_out(None, NOTCH);
    assert_eq!(
        s.take_camera_view_requests(),
        vec![
            CameraViewRequest::ZoomOut(2.0),
            CameraViewRequest::ZoomIn(0.5),
            CameraViewRequest::ZoomIn(1.0),
            CameraViewRequest::ZoomOut(1.0),
        ]
    );
    assert!(s.take_camera_view_requests().is_empty());
}

#[test]
fn view_arg_keeps_one_to_five_as_internal_index() {
    assert_eq!(CAMERA_VIEW_COUNT, 5);
    assert_eq!(view_arg(Some(1)), Some(0));
    assert_eq!(view_arg(Some(3)), Some(2));
    assert_eq!(view_arg(Some(5)), Some(4));
}

#[test]
fn view_arg_out_of_range_or_not_a_number_is_silent() {
    assert_eq!(view_arg(Some(0)), None);
    assert_eq!(view_arg(Some(6)), None);
    assert_eq!(view_arg(Some(9)), None);
    assert_eq!(view_arg(Some(-1)), None);
    assert_eq!(view_arg(None), None);
}

#[test]
fn view_arg_large_arguments_are_silent() {
    // 2^32 + 1 lies far above 5, whatever its low bits.
    assert_eq!(view_arg(Some(4_294_967_297)), None);
    assert_eq!(view_arg(Some(4_294_967_296)), None);
    assert_eq!(view_arg(Some(i64::MAX)), None);
    assert_eq!(view_arg(Some(i64::MIN)), None);
}

#[test]
fn indexed_verbs_queue_only_valid_views() {
    let mut q: CameraViewQueue<f32> = CameraViewQueue::new();
    q.set_view(Some(2));
    q.set_view(Some(0));
    q.save_view(Some(1));
    q.save_view(None);
    q.reset_view(Some(5));
    q.reset_view(Some(6));
    assert_eq!(q.len(), 3);
    assert_eq!(
        q.take_camera_view_requests(),
        vec![
            CameraViewRequest::SetView(1),
            CameraViewRequest::Save(0),
            CameraViewRequest::Reset(4),
        ]
    );
    assert_eq!(q.len(), 0);
}

#[test]
fn next_prev_always_queue_and_flip_needs_a_number() {
    let mut q: CameraViewQueue<f32> = CameraViewQueue::new();
    q.next_view();
    q.prev_view();
    q.flip_camera_yaw(Some(180.0));
    q.flip_camera_yaw(None);
    q.flip_camera_yaw(Some(12.5));
    assert_eq!(
        q.take_camera_view_requests(),
        vec![
            CameraViewRequest::Next,
            CameraViewRequest::Prev,
            CameraViewRequest::FlipYaw(180.0),
            CameraViewRequest::FlipYaw(12.5),
        ]
    );
}
