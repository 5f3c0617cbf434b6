use linux_hello::camera::CameraManager;
use linux_hello::frame::{CameraConfig, FrameFormat};

#[test]
fn test_frame_format_channels() {
    assert_eq!(FrameFormat::Rgb8.channels(), 3);
    assert_eq!(FrameFormat::Gray8.channels(), 1);
}

#[test]
fn test_camera_config_default() {
    let config = CameraConfig::default();
    assert_eq!(config.width, 640);
    assert_eq!(config.height, 480);
}

#[test]
fn test_camera_manager_available() {
    let camera = CameraManager::new(5000);
    assert!(camera.is_available());
}

#[test]
fn test_capture_frames() {
    let camera = CameraManager::new(5000);
    let result = camera.capture_frames(3, 0).unwrap();

    assert_eq!(result.frames.len(), 3);
    assert_eq!(result.embeddings.len(), 3);
    assert_eq!(result.embeddings[0].vector.len(), 128);
}

#[test]
fn test_capture_stream_step_timeout() {
    let camera = CameraManager::new(5000);
    let step = camera.capture_stream_step(0, 30, 5001, 5000);
    assert!(step.is_err());
}

#[test]
fn test_capture_stream_step_event() {
    let camera = CameraManager::new(5000);
    let event = camera.capture_stream_step(4, 30, 150, 10000).unwrap();
    assert_eq!(event.frame_number, 4);
    assert_eq!(event.total_frames, 30);
    assert_eq!(event.width, 640);
    assert_eq!(event.height, 480);
    assert_eq!(event.frame_data.len(), 640 * 480 * 3);
    assert_eq!(event.timestamp_ms, 150);
}

#[test]
fn test_frame_validate() {
    let frame = linux_hello::frame::Frame {
        data: vec![0u8; 4 * 2 * 3],
        width: 4,
        height: 2,
        format: FrameFormat::Rgb8,
        timestamp_ms: 0,
    };
    assert!(frame.validate().is_ok());
    let bad = linux_hello::frame::Frame {
        data: vec![0u8; 5],
        width: 4,
        height: 2,
        format: FrameFormat::Rgb8,
        timestamp_ms: 0,
    };
    assert!(bad.validate().is_err());
}

#[test]
fn yuyv_conversion_formulas() {
    // neutral chroma: both pixels keep their luma
    let data = [128u8, 128, 128, 128];
    let rgb = linux_hello::frame::yuyv_to_rgb(&data, 2, 1);
    assert_eq!(rgb, vec![128u8; 6]);

    // saturated chroma clamps into the byte range
    let data = [16u8, 0, 200, 255];
    let rgb = linux_hello::frame::yuyv_to_rgb(&data, 2, 1);
    assert_eq!(rgb, vec![194, 0, 0, 255, 154, 0]);

    // a trailing partial chunk is dropped
    let data = [10u8, 20, 30];
    assert!(linux_hello::frame::yuyv_to_rgb(&data, 1, 1).is_empty());
}
