use transcrate::tools::{file_name, locate, shipped};

#[test]
fn windows_tools_carry_an_extension() {
    assert_eq!(file_name("ffmpeg", true), "ffmpeg.exe");
}

#[test]
fn elsewhere_the_name_is_the_name() {
    assert_eq!(file_name("ffmpeg", false), "ffmpeg");
}

#[test]
fn a_shipped_copy_wins() {
    let beside = shipped("/opt/transcrate", "ffmpeg", false);
    assert_eq!(beside, "/opt/transcrate/ffmpeg");
    assert_eq!(locate(Some(&beside), true, "ffmpeg"), beside);
}

#[test]
fn without_one_the_path_is_used() {
    assert_eq!(locate(None, false, "ffmpeg"), "ffmpeg");
}

#[test]
fn a_directory_is_not_a_tool() {
    let beside = shipped("/opt/transcrate", "ffmpeg", false);
    assert_eq!(locate(Some(&beside), false, "ffmpeg"), "ffmpeg");
}
