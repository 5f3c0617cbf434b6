use linux_hello::camera::{CaptureFrame, FaceBox};
use linux_hello::preview::{ButtonState, ButtonStates, PreviewState};

#[test]
fn test_preview_state_creation() {
    let state = PreviewState::new();
    assert_eq!(state.width, 640);
    assert_eq!(state.height, 480);
    assert!(state.current_frame.is_none());
}

#[test]
fn test_progress_text_format() {
    let state = PreviewState::new();
    assert_eq!(state.progress_text(), "0/0 frames");
}

#[test]
fn test_detection_status() {
    let state = PreviewState::new();
    assert!(state.detection_status().contains("En attente"));
}

#[test]
fn test_get_display_data_with_frame() {
    let mut state = PreviewState::new();
    let frame_data = vec![255, 0, 0].repeat(640 * 480);
    let face_box = FaceBox { x: 100, y: 100, width: 50, height: 50, confidence_ppm: 950_000 };

    let frame = CaptureFrame {
        frame_number: 0,
        total_frames: 30,
        frame_data,
        width: 640,
        height: 480,
        face_detected: true,
        face_box: Some(face_box),
        quality_ppm: 900_000,
        timestamp_ms: 1000,
    };

    state.update_frame(frame);
    let display_data = state.get_display_data();

    assert!(display_data.is_some());
    let data = display_data.unwrap();
    assert_eq!(data.len(), 640 * 480 * 3);
}

#[test]
fn test_draw_box_leaves_outside_untouched() {
    let mut state = PreviewState::new();
    let frame_data = vec![7u8; 640 * 480 * 3];
    let face_box = FaceBox { x: 10, y: 10, width: 20, height: 20, confidence_ppm: 900_000 };
    let frame = CaptureFrame {
        frame_number: 0,
        total_frames: 1,
        frame_data,
        width: 640,
        height: 480,
        face_detected: true,
        face_box: Some(face_box),
        quality_ppm: 900_000,
        timestamp_ms: 0,
    };
    state.update_frame(frame);
    let data = state.get_display_data().unwrap();
    // a pixel well outside the box is untouched
    let outside = (100 * 640 + 100) * 3;
    assert_eq!(data[outside], 7);
    // the box's top-left corner pixel was painted green
    let corner = (10 * 640 + 10) * 3;
    assert_eq!(data[corner], 0);
    assert_eq!(data[corner + 1], 255);
    assert_eq!(data[corner + 2], 0);
}

#[test]
fn test_button_states_default() {
    let states = ButtonStates::default();
    assert_eq!(states.start_capture_btn, ButtonState::Normal);
    assert_eq!(states.stop_capture_btn, ButtonState::Disabled);
    assert_eq!(states.home_btn, ButtonState::Normal);
}

#[test]
fn test_button_states_new() {
    let states = ButtonStates::new();
    assert_eq!(states.start_capture_btn, ButtonState::Normal);
    assert_eq!(states.stop_capture_btn, ButtonState::Disabled);
}

#[test]
fn test_animation_bounds() {
    let mut animated_progress: f32 = 0.0;

    animated_progress += 2.0;
    animated_progress = animated_progress.max(0.0).min(1.0);
    assert_eq!(animated_progress, 1.0, "Should be clamped to max");

    animated_progress -= 3.0;
    animated_progress = animated_progress.max(0.0).min(1.0);
    assert_eq!(animated_progress, 0.0, "Should be clamped to min");
}

#[test]
fn display_data_without_box_is_the_frame_itself() {
    let mut state = PreviewState::new();
    let frame_data = vec![9u8; 640 * 480 * 3];
    let frame = CaptureFrame {
        frame_number: 0,
        total_frames: 1,
        frame_data: frame_data.clone(),
        width: 640,
        height: 480,
        face_detected: false,
        face_box: None,
        quality_ppm: 900_000,
        timestamp_ms: 0,
    };
    state.update_frame(frame);
    let data = state.get_display_data().unwrap();
    assert_eq!(data, frame_data);
}
