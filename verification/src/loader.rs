//! The checks the host makes around a plugin call, and the file name it loads a plugin from.

use vstd::prelude::*;
use crate::validation::{expected_rgba_len, input_is_valid, rgba_len_spec};
use vstd::string::StringSliceAdditionalSpecFns;

verus! {

/// Why the host could not have a plugin process an image.
#[derive(Debug, Clone, PartialEq, Eq)]
pub enum ProcessError {
    /// The image does not have the shape the plugin protocol requires.
    Validation(String),
    /// The parameter text holds a NUL byte, at this byte position.
    ParamsFormatError(usize),
    /// The plugin ran and returned this non-zero status.
    ImageProcessing(i32),
    /// The input bytes are not a picture that can be read; the text says why.
    ImageError(String),
    /// The processed pixels cannot fill a picture of the stated size.
    CorruptedImage,
}

/// The message with which [`check_image_params`] refuses an image, if it does.
pub open spec fn image_params_problem(width: u32, height: u32, len: int) -> Option<Seq<char>> {
    if width == 0 || height == 0 {
        Some("width and height must be greater than 0"@)
    } else if rgba_len_spec(width as int, height as int) > usize::MAX {
        Some("image size overflow"@)
    } else if len != rgba_len_spec(width as int, height as int) {
        Some("invalid RGBA buffer length"@)
    } else {
        None
    }
}

/// Checks, before a plugin is called, that both dimensions are non-zero and that the
/// buffer holds exactly `width * height * 4` bytes.
pub fn check_image_params(width: u32, height: u32, rgba_data: &[u8]) -> (res: Result<
    (),
    ProcessError,
>)
    ensures
        match res {
            Ok(()) => image_params_problem(width, height, rgba_data@.len() as int) is None,
            Err(ProcessError::Validation(msg)) => image_params_problem(
                width,
                height,
                rgba_data@.len() as int,
            ) == Some(msg@),
            Err(_) => false,
        },
{
    if width == 0 || height == 0 {
        return Err(ProcessError::Validation(String::from_str("width and height must be greater than 0")));
    }
    let expected_len = match expected_rgba_len(width, height) {
        Some(v) => v,
        None => return Err(ProcessError::Validation(String::from_str("image size overflow"))),
    };
    if rgba_data.len() != expected_len {
        return Err(ProcessError::Validation(String::from_str("invalid RGBA buffer length")));
    }
    Ok(())
}

/// The outcome of handing `params` over as a C string: its length in bytes when no
/// byte is NUL, else the position of the first NUL byte.
pub open spec fn c_params_outcome(params: &str, res: Result<usize, ProcessError>) -> bool {
    match res {
        Ok(n) => n == params.spec_bytes().len() && !params.spec_bytes().contains(0u8),
        Err(ProcessError::ParamsFormatError(pos)) => {
            &&& pos < params.spec_bytes().len()
            &&& params.spec_bytes()[pos as int] == 0u8
            &&& forall|j: int| 0 <= j < pos ==> params.spec_bytes()[j] != 0u8
        },
        Err(_) => false,
    }
}

/// Checks that the parameter text can be handed over as a C string, that is that
/// none of its bytes is NUL, and returns its length in bytes. The error carries the
/// position of the first NUL byte.
pub fn c_params_len(params: &str) -> (res: Result<usize, ProcessError>)
    ensures
        c_params_outcome(params, res),
{
    let bytes = params.as_bytes();
    let n = bytes.len();
    let mut i: usize = 0;
    while i < n
        invariant
            n == bytes@.len(),
            bytes@ == params.spec_bytes(),
            i <= n,
            forall|j: int| 0 <= j < i ==> bytes@[j] != 0u8,
        decreases n - i,
    {
        if bytes[i] == 0 {
            return Err(ProcessError::ParamsFormatError(i));
        }
        i = i + 1;
    }
    proof {
        if bytes@.contains(0u8) {
            let j = choose|j: int| 0 <= j < bytes@.len() && bytes@[j] == 0u8;
            assert(bytes@[j] != 0u8);
        }
    }
    Ok(n)
}

/// Everything the host checks before it calls a plugin, in order: first the shape of
/// the image, then the parameter text. Returns the length of the text in bytes.
pub fn prepare_call(width: u32, height: u32, rgba: &[u8], params: &str) -> (res: Result<
    usize,
    ProcessError,
>)
    ensures
        match image_params_problem(width, height, rgba@.len() as int) {
            Some(msg) => res matches Err(ProcessError::Validation(m)) && m@ == msg,
            None => c_params_outcome(params, res),
        },
{
    match check_image_params(width, height, rgba) {
        Err(e) => Err(e),
        Ok(()) => c_params_len(params),
    }
}

/// Turns the status a plugin returned into the host's result: zero is success.
pub fn call_status(code: i32) -> (res: Result<(), ProcessError>)
    ensures
        code == 0 ==> res == Ok::<(), ProcessError>(()),
        code != 0 ==> res == Err::<(), ProcessError>(ProcessError::ImageProcessing(code)),
{
    if code != 0 {
        Err(ProcessError::ImageProcessing(code))
    } else {
        Ok(())
    }
}

/// `libloading::library_filename`: the platform's file name for a dynamic library
/// called `name` (`lib{name}.so` on Linux, `{name}.dll` on Windows). The contract
/// claims only that the name stands between a prefix and a suffix; which ones the
/// platform uses is left unsaid.
#[verifier::external_body]
fn library_filename(name: &str) -> (file_name: String)
    ensures
        exists|prefix: Seq<char>, suffix: Seq<char>| file_name@ == prefix + name@ + suffix,
{
    libloading::library_filename(name).to_string_lossy().into_owned()
}

/// The file name of the plugin library called `plugin`: the platform's library file
/// name for `{plugin}_plugin`.
pub fn plugin_library_name(plugin: &str) -> (file_name: String)
    ensures
        exists|prefix: Seq<char>, suffix: Seq<char>| file_name@ == prefix + plugin@ + "_plugin"@
            + suffix,
{
    let mut stem = String::from_str(plugin);
    stem.append("_plugin");
    let file_name = library_filename(stem.as_str());
    proof {
        let (prefix, suffix) = choose|prefix: Seq<char>, suffix: Seq<char>|
            file_name@ == prefix + stem@ + suffix;
        assert(file_name@ =~= prefix + plugin@ + "_plugin"@ + suffix);
    }
    file_name
}

} // verus!

verus! {

/// The host's check and the plugins' check accept the same images: for present
/// buffers and non-empty parameters, [`check_image_params`] succeeds exactly when
/// the plugin's `validate_input` would accept the call.
pub proof fn lemma_host_check_matches_plugin_check(
    width: u32,
    height: u32,
    rgba_len: usize,
    params_len: usize,
)
    requires
        params_len > 0,
    ensures
        image_params_problem(width, height, rgba_len as int) is None <==> input_is_valid(
            width,
            height,
            false,
            rgba_len,
            false,
            params_len,
        ),
{
}

} // verus!
