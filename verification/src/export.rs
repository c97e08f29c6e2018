//! Export naming: the output format vocabulary, its file extensions, and
//! the timestamped file name screenshots are saved under.  The actual
//! encoding and file write are the I/O collaborator's concern.

use vstd::prelude::*;
use vstd::string::StringExecFns;

use crate::error::ScreenShotError;

verus! {

/// The raster formats a caller may ask for.  Only PNG, JPEG and GIF are
/// supported for export.
#[derive(Clone, Copy, Debug, PartialEq, Eq, Structural)]
pub enum ImageFormat {
    Png,
    Jpeg,
    Gif,
    Bmp,
    Ico,
    Tiff,
}

/// Whether the engine can export in the given format.
pub open spec fn format_supported(f: ImageFormat) -> bool {
    f == ImageFormat::Png || f == ImageFormat::Jpeg || f == ImageFormat::Gif
}

/// The file extension of each supported format.
pub open spec fn extension_spec(f: ImageFormat) -> Seq<char> {
    match f {
        ImageFormat::Png => "png"@,
        ImageFormat::Jpeg => "jpg"@,
        ImageFormat::Gif => "gif"@,
        _ => Seq::<char>::empty(),
    }
}

/// The moment a screenshot is saved, split into calendar and clock
/// fields by the time collaborator.
#[derive(Clone, Copy, Debug, PartialEq, Eq, Structural)]
pub struct Timestamp {
    pub day: u32,
    pub month: u32,
    pub year: u32,
    pub hour: u32,
    pub minute: u32,
    pub second: u32,
    pub milli: u32,
}

/// The decimal digit character for `d`.
pub open spec fn digit_char(d: int) -> char {
    if d == 0 {
        '0'
    } else if d == 1 {
        '1'
    } else if d == 2 {
        '2'
    } else if d == 3 {
        '3'
    } else if d == 4 {
        '4'
    } else if d == 5 {
        '5'
    } else if d == 6 {
        '6'
    } else if d == 7 {
        '7'
    } else if d == 8 {
        '8'
    } else {
        '9'
    }
}

/// `v` as two zero-padded decimal digits.
pub open spec fn two_digits(v: int) -> Seq<char> {
    seq![digit_char(v / 10), digit_char(v % 10)]
}

/// `v` as three zero-padded decimal digits.
pub open spec fn three_digits(v: int) -> Seq<char> {
    seq![digit_char(v / 100), digit_char(v / 10 % 10), digit_char(v % 10)]
}

/// `v` as four zero-padded decimal digits.
pub open spec fn four_digits(v: int) -> Seq<char> {
    seq![digit_char(v / 1000), digit_char(v / 100 % 10), digit_char(v / 10 % 10), digit_char(
        v % 10,
    )]
}

/// The file name pattern screenshots are saved under:
/// `screenshot-DD-MM-YYYY-HH-MM-SS_mmm.<ext>`.
pub open spec fn file_name_spec(ts: Timestamp, ext: Seq<char>) -> Seq<char> {
    "screenshot-"@ + two_digits(ts.day as int) + "-"@ + two_digits(ts.month as int) + "-"@
        + four_digits(ts.year as int) + "-"@ + two_digits(ts.hour as int) + "-"@ + two_digits(
        ts.minute as int,
    ) + "-"@ + two_digits(ts.second as int) + "_"@ + three_digits(ts.milli as int) + "."@ + ext
}

/// The decimal digit character for `d`, as a one-character string.
fn digit_str(d: u32) -> (out: &'static str)
    requires
        d < 10,
    ensures
        out@.len() == 1,
        out@[0] == digit_char(d as int),
{
    proof {
        reveal_strlit("0");
        reveal_strlit("1");
        reveal_strlit("2");
        reveal_strlit("3");
        reveal_strlit("4");
        reveal_strlit("5");
        reveal_strlit("6");
        reveal_strlit("7");
        reveal_strlit("8");
        reveal_strlit("9");
    }
    match d {
        0 => "0",
        1 => "1",
        2 => "2",
        3 => "3",
        4 => "4",
        5 => "5",
        6 => "6",
        7 => "7",
        8 => "8",
        _ => "9",
    }
}

/// Appends `v` as two zero-padded decimal digits.
fn push_two(out: &mut String, v: u32)
    requires
        v < 100,
    ensures
        final(out)@ == old(out)@ + two_digits(v as int),
{
    out.append(digit_str(v / 10));
    out.append(digit_str(v % 10));
    proof {
        assert(out@ =~= old(out)@ + two_digits(v as int));
    }
}

/// Appends `v` as three zero-padded decimal digits.
fn push_three(out: &mut String, v: u32)
    requires
        v < 1000,
    ensures
        final(out)@ == old(out)@ + three_digits(v as int),
{
    out.append(digit_str(v / 100));
    out.append(digit_str(v / 10 % 10));
    out.append(digit_str(v % 10));
    proof {
        assert(out@ =~= old(out)@ + three_digits(v as int));
    }
}

/// Appends `v` as four zero-padded decimal digits.
fn push_four(out: &mut String, v: u32)
    requires
        v < 10000,
    ensures
        final(out)@ == old(out)@ + four_digits(v as int),
{
    out.append(digit_str(v / 1000));
    out.append(digit_str(v / 100 % 10));
    out.append(digit_str(v / 10 % 10));
    out.append(digit_str(v % 10));
    proof {
        assert(out@ =~= old(out)@ + four_digits(v as int));
    }
}

/// The file extension for `format`, or `UnsupportedFormat` for formats
/// the engine does not export.
pub fn extension(format: ImageFormat) -> (out: Result<&'static str, ScreenShotError>)
    ensures
        out is Ok <==> format_supported(format),
        out is Ok ==> out->Ok_0@ == extension_spec(format),
        out is Err ==> out->Err_0 == ScreenShotError::UnsupportedFormat,
{
    match format {
        ImageFormat::Png => Ok("png"),
        ImageFormat::Jpeg => Ok("jpg"),
        ImageFormat::Gif => Ok("gif"),
        _ => Err(ScreenShotError::UnsupportedFormat),
    }
}

/// The name a screenshot saved at `ts` gets.  Fails with `NotADirectory`
/// when the caller's destination is not a directory, and with
/// `UnsupportedFormat` for formats other than PNG, JPEG and GIF.
pub fn save_file_name(path_is_dir: bool, format: ImageFormat, ts: Timestamp) -> (out: Result<
    String,
    ScreenShotError,
>)
    requires
        ts.day < 100,
        ts.month < 100,
        ts.year < 10000,
        ts.hour < 100,
        ts.minute < 100,
        ts.second < 100,
        ts.milli < 1000,
    ensures
        out is Ok <==> (path_is_dir && format_supported(format)),
        !path_is_dir ==> out == Result::<String, ScreenShotError>::Err(
            ScreenShotError::NotADirectory,
        ),
        path_is_dir && !format_supported(format) ==> out == Result::<String, ScreenShotError>::Err(
            ScreenShotError::UnsupportedFormat,
        ),
        out is Ok ==> out->Ok_0@ == file_name_spec(ts, extension_spec(format)),
{
    if !path_is_dir {
        return Err(ScreenShotError::NotADirectory);
    }
    let ext = match extension(format) {
        Ok(e) => e,
        Err(e) => {
            return Err(e);
        },
    };
    let mut name = String::new();
    name.append("screenshot-");
    push_two(&mut name, ts.day);
    name.append("-");
    push_two(&mut name, ts.month);
    name.append("-");
    push_four(&mut name, ts.year);
    name.append("-");
    push_two(&mut name, ts.hour);
    name.append("-");
    push_two(&mut name, ts.minute);
    name.append("-");
    push_two(&mut name, ts.second);
    name.append("_");
    push_three(&mut name, ts.milli);
    name.append(".");
    name.append(ext);
    proof {
        assert(name@ =~= file_name_spec(ts, extension_spec(format)));
    }
    Ok(name)
}

} // verus!
