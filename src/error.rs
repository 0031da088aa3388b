//! The application's error kinds and their messages.
use vstd::prelude::*;

verus! {

#[derive(Clone, Debug, PartialEq, Eq)]
pub enum AppError {
    Io(String),
    Ffmpeg(String),
    Audio(String),
    Video(String),
    InvalidArgument(String),
    Unknown(String),
}

/// The message shown for an error.
pub open spec fn message_of(e: AppError) -> Seq<char> {
    match e {
        AppError::Io(s) => "IO错误: "@ + s@,
        AppError::Ffmpeg(s) => "FFmpeg错误: "@ + s@,
        AppError::Audio(s) => "音频处理错误: "@ + s@,
        AppError::Video(s) => "视频处理错误: "@ + s@,
        AppError::InvalidArgument(s) => "参数错误: "@ + s@,
        AppError::Unknown(s) => "未知错误: "@ + s@,
    }
}

impl AppError {
    pub fn message(&self) -> (r: String)
        ensures
            r@ == message_of(*self),
    {
        let (head, detail) = match self {
            AppError::Io(s) => ("IO错误: ", s),
            AppError::Ffmpeg(s) => ("FFmpeg错误: ", s),
            AppError::Audio(s) => ("音频处理错误: ", s),
            AppError::Video(s) => ("视频处理错误: ", s),
            AppError::InvalidArgument(s) => ("参数错误: ", s),
            AppError::Unknown(s) => ("未知错误: ", s),
        };
        let mut m = String::from_str(head);
        m.append(detail.as_str());
        m
    }
}

} // verus!
