//! The computable parts of app-icon resolution: where to look for an app
//! bundle and its icon file, and how to package a PNG as a base64 data
//! URL. Probing the filesystem and converting image formats stay with the
//! process plumbing.

use vstd::prelude::*;

verus! {

/// The standard, padded base64 rendering of a byte string; the result of
/// `base64_encode`.
pub uninterp spec fn base64_std(bytes: Seq<u8>) -> Seq<char>;

/// Relies on base64's `Engine::encode` with the `STANDARD` engine: encodes
/// the bytes as standard padded base64. The result depends on the bytes
/// alone.
#[verifier::external_body]
fn base64_encode(bytes: &Vec<u8>) -> (r: String)
    ensures
        r@ == base64_std(bytes@),
{
    base64::Engine::encode(&base64::engine::general_purpose::STANDARD, bytes)
}

/// The data-URL form of a PNG icon: the media-type prefix, then the
/// base64-encoded image bytes.
pub open spec fn spec_icon_data_url(png: Seq<u8>) -> Seq<char> {
    "data:image/png;base64,"@ + base64_std(png)
}

/// Packages PNG bytes as a `data:image/png;base64,...` URL.
pub fn icon_data_url(png: &Vec<u8>) -> (r: String)
    ensures
        r@ == spec_icon_data_url(png@),
{
    let mut s = String::from_str("data:image/png;base64,");
    let b = base64_encode(png);
    s.append(b.as_str());
    s
}

/// The well-known locations where the app bundle of `process_name` may
/// live, in the order they are probed after a failed metadata lookup; the
/// last entry is under the user's home directory when one is known.
pub fn app_bundle_candidates(process_name: &str, home: Option<&String>) -> (r: Vec<String>)
    ensures
        ({
            let name = process_name@;
            &&& r@.len() == (if home is Some { 4int } else { 3 })
            &&& r@[0]@ == "/Applications/"@ + name + ".app"@
            &&& r@[1]@ == "/System/Applications/"@ + name + ".app"@
            &&& r@[2]@ == "/Applications/Utilities/"@ + name + ".app"@
            &&& (match home {
                Some(h) => r@[3]@ == h@ + "/Applications/"@ + name + ".app"@,
                None => true,
            })
        }),
{
    let mut out: Vec<String> = Vec::new();
    let mut a = String::from_str("/Applications/");
    a.append(process_name);
    a.append(".app");
    out.push(a);
    let mut b = String::from_str("/System/Applications/");
    b.append(process_name);
    b.append(".app");
    out.push(b);
    let mut c = String::from_str("/Applications/Utilities/");
    c.append(process_name);
    c.append(".app");
    out.push(c);
    if let Some(h) = home {
        let mut d = (*h).clone();
        d.append("/Applications/");
        d.append(process_name);
        d.append(".app");
        out.push(d);
    }
    out
}

/// The icon file names tried inside `Contents/Resources` when the bundle's
/// property list names none.
pub fn common_icon_names() -> (r: Vec<&'static str>)
    ensures
        r@.len() == 3,
        r@[0]@ == "AppIcon.icns"@,
        r@[1]@ == "app.icns"@,
        r@[2]@ == "icon.icns"@,
{
    let mut out: Vec<&'static str> = Vec::new();
    out.push("AppIcon.icns");
    out.push("app.icns");
    out.push("icon.icns");
    out
}

/// Whether the name already carries the icon file extension.
pub open spec fn has_icns_ext(name: Seq<char>) -> bool {
    name.len() >= 5 && name.subrange(name.len() - 5, name.len() as int) == ".icns"@
}

/// The icon file name with the `.icns` extension appended unless it is
/// already there; mirrors how the name read from the bundle's property
/// list is normalized.
pub fn normalize_icon_name(name: &str) -> (r: String)
    ensures
        r@ == if has_icns_ext(name@) {
            name@
        } else {
            name@ + ".icns"@
        },
{
    let len = name.unicode_len();
    let has_ext = if len >= 5 {
        crate::text::str_eq(name.substring_char(len - 5, len), ".icns")
    } else {
        false
    };
    if has_ext {
        name.to_owned()
    } else {
        let mut s = name.to_owned();
        s.append(".icns");
        s
    }
}

} // verus!
