//! Choosing a presentation backend and what each backend accepts.
//!
//! A backend is an external program; probing for it, launching it and
//! handing it a wallpaper are the caller's concern.  What is decided here —
//! which backend a configured name denotes, whether a probe outcome lets a
//! backend be constructed, and which file extensions each backend
//! supports — is verified.

use vstd::prelude::*;
use vstd::string::StringExecFns;

verus! {

/// The backends a configuration can name.
#[derive(Clone, Copy, Debug, PartialEq, Eq, Structural)]
pub enum BackendKind {
    Swww,
    Feh,
}

/// Errors of backend selection and construction.
#[derive(Clone, Copy, Debug, PartialEq, Eq, Structural)]
pub enum BackendError {
    /// The configured name names no known backend.
    UnknownBackend,
    /// The backend's program is not installed or not running.
    NotAvailable,
}

/// Compares two strings character by character.
pub fn str_eq(a: &str, b: &str) -> (r: bool)
    ensures
        r == (a@ == b@),
{
    let na = a.unicode_len();
    let nb = b.unicode_len();
    if na != nb {
        return false;
    }
    let mut i: usize = 0;
    while i < na
        invariant
            i <= na,
            na == a@.len(),
            na == b@.len(),
            forall|j: int| 0 <= j < i ==> a@[j] == b@[j],
        decreases na - i,
    {
        if a.get_char(i) != b.get_char(i) {
            return false;
        }
        i += 1;
    }
    proof {
        assert(a@ =~= b@);
    }
    true
}

/// The `feh` backend, constructed only after its program answered a probe.
pub struct FehBackend;

impl FehBackend {
    /// Accepts the outcome of probing for the `feh` program: without the
    /// program there is no backend.
    pub fn new(available: bool) -> (r: Result<FehBackend, BackendError>)
        ensures
            available ==> r is Ok,
            !available ==> r == Err::<FehBackend, BackendError>(BackendError::NotAvailable),
    {
        if !available {
            return Err(BackendError::NotAvailable);
        }
        Ok(FehBackend)
    }

    /// The image formats `feh` accepts.
    pub fn supported_extensions(&self) -> (r: Vec<String>)
        ensures
            r.deep_view() =~= seq!["jpg"@, "png"@, "jpeg"@, "webp"@, "bmp"@],
    {
        let mut v: Vec<String> = Vec::new();
        v.push(String::from_str("jpg"));
        v.push(String::from_str("png"));
        v.push(String::from_str("jpeg"));
        v.push(String::from_str("webp"));
        v.push(String::from_str("bmp"));
        v
    }
}

/// The `swww` backend, constructed only after its daemon answered a probe.
pub struct SwwwBackend;

impl SwwwBackend {
    /// Accepts the outcome of probing the `swww` daemon — however many
    /// probe rounds the caller gave it: without a positive answer there is
    /// no backend.
    pub fn new(available: bool) -> (r: Result<SwwwBackend, BackendError>)
        ensures
            available ==> r is Ok,
            !available ==> r == Err::<SwwwBackend, BackendError>(BackendError::NotAvailable),
    {
        if !available {
            return Err(BackendError::NotAvailable);
        }
        Ok(SwwwBackend)
    }

    /// The image formats `swww` accepts.
    pub fn supported_extensions(&self) -> (r: Vec<String>)
        ensures
            r.deep_view() =~= seq![
                "jpg"@,
                "jpeg"@,
                "png"@,
                "gif"@,
                "webp"@,
                "bmp"@,
                "pnm"@,
                "tga"@,
                "tiff"@,
            ],
    {
        let mut v: Vec<String> = Vec::new();
        v.push(String::from_str("jpg"));
        v.push(String::from_str("jpeg"));
        v.push(String::from_str("png"));
        v.push(String::from_str("gif"));
        v.push(String::from_str("webp"));
        v.push(String::from_str("bmp"));
        v.push(String::from_str("pnm"));
        v.push(String::from_str("tga"));
        v.push(String::from_str("tiff"));
        v
    }
}

/// Resolves a configured backend name.
///
/// Exactly the names `"swww"` and `"feh"` denote backends; any other name
/// is an error.
pub fn get_backend(name: &str) -> (r: Result<BackendKind, BackendError>)
    ensures
        name@ == "swww"@ ==> r == Ok::<BackendKind, BackendError>(BackendKind::Swww),
        name@ == "feh"@ ==> r == Ok::<BackendKind, BackendError>(BackendKind::Feh),
        name@ != "swww"@ && name@ != "feh"@ ==> r == Err::<BackendKind, BackendError>(
            BackendError::UnknownBackend,
        ),
{
    proof {
        reveal_strlit("swww");
        reveal_strlit("feh");
        assert("swww"@.len() == 4);
        assert("feh"@.len() == 3);
    }
    if str_eq(name, "swww") {
        Ok(BackendKind::Swww)
    } else if str_eq(name, "feh") {
        Ok(BackendKind::Feh)
    } else {
        Err(BackendError::UnknownBackend)
    }
}

} // verus!
