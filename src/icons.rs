use vstd::prelude::*;
use vstd::string::*;
use crate::store::{CatalogStore, has_icon_bytes, with_icon};
use crate::remote::CatalogError;
use base64::Engine;

verus! {

/// The standard base64 text (RFC 4648 alphabet, with padding) of `bytes`.
pub uninterp spec fn base64_standard(bytes: Seq<u8>) -> Seq<char>;

/// Relies on `base64::Engine::encode` with the `general_purpose::STANDARD`
/// engine: the padded standard-alphabet text of the input, four characters
/// for each started group of three bytes (`encoded_len` with padding).  Its
/// size computation overflows only past what a `Vec` can hold.
#[verifier::external_body]
fn base64_encode(bytes: &Vec<u8>) -> (r: String)
    ensures
        r@ == base64_standard(bytes@),
        r@.len() == 4 * ((bytes@.len() + 2) / 3),
{
    base64::engine::general_purpose::STANDARD.encode(bytes)
}

/// The kinds of image that a stored icon is recognised as.
#[derive(Debug, Clone, Copy, PartialEq, Eq, Structural)]
pub enum ImageKind {
    Png,
    Jpeg,
    Svg,
}

pub open spec fn ascii_lower(b: u8) -> u8 {
    if 65 <= b <= 90 {
        (b + 32) as u8
    } else {
        b
    }
}

/// What the first bytes of an icon say it is: the PNG signature, the JPEG
/// start-of-image marker, or `svg` (in either case) right after the first
/// byte, as in `<svg`; PNG where none of them is there.
pub open spec fn sniff(data: Seq<u8>) -> ImageKind {
    if data.len() > 4 && data[0] == 0x89u8 && data[1] == 0x50u8 && data[2] == 0x4eu8 && data[3] == 0x47u8 {
        ImageKind::Png
    } else if data.len() > 2 && data[0] == 0xffu8 && data[1] == 0xd8u8 {
        ImageKind::Jpeg
    } else if data.len() > 4 && ascii_lower(data[1]) == 0x73u8 && ascii_lower(data[2]) == 0x76u8
        && ascii_lower(data[3]) == 0x67u8 {
        ImageKind::Svg
    } else {
        ImageKind::Png
    }
}

pub open spec fn media_type(k: ImageKind) -> Seq<char> {
    match k {
        ImageKind::Png => "image/png"@,
        ImageKind::Jpeg => "image/jpeg"@,
        ImageKind::Svg => "image/svg+xml"@,
    }
}

/// The data URL that embeds `data` as the given kind of image.
pub open spec fn data_url(k: ImageKind, data: Seq<u8>) -> Seq<char> {
    "data:"@ + media_type(k) + ";base64,"@ + base64_standard(data)
}

fn lower_byte(b: u8) -> (r: u8)
    ensures
        r == ascii_lower(b),
{
    if 65 <= b && b <= 90 {
        b + 32
    } else {
        b
    }
}

/// Recognises the kind of image that `data` holds.
pub fn sniff_image_kind(data: &Vec<u8>) -> (r: ImageKind)
    ensures
        r == sniff(data@),
{
    let n = data.len();
    if n > 4 && data[0] == 0x89u8 && data[1] == 0x50u8 && data[2] == 0x4eu8 && data[3] == 0x47u8 {
        ImageKind::Png
    } else if n > 2 && data[0] == 0xffu8 && data[1] == 0xd8u8 {
        ImageKind::Jpeg
    } else if n > 4 && lower_byte(data[1]) == 0x73u8 && lower_byte(data[2]) == 0x76u8
        && lower_byte(data[3]) == 0x67u8 {
        ImageKind::Svg
    } else {
        ImageKind::Png
    }
}

fn media_type_text(k: ImageKind) -> (r: &'static str)
    ensures
        r@ == media_type(k),
{
    match k {
        ImageKind::Png => "image/png",
        ImageKind::Jpeg => "image/jpeg",
        ImageKind::Svg => "image/svg+xml",
    }
}

/// Embeds `data` as an image data URL of the given kind.
pub fn data_url_of(k: ImageKind, data: &Vec<u8>) -> (r: String)
    ensures
        r@ == data_url(k, data@),
{
    let mut r = String::from_str("data:");
    r.append(media_type_text(k));
    r.append(";base64,");
    let encoded = base64_encode(data);
    r.append(encoded.as_str());
    r
}

/// Embeds a stored icon as a data URL, its media type sniffed from its first
/// bytes.
pub fn icon_data_url(data: &Vec<u8>) -> (r: String)
    ensures
        r@ == data_url(sniff(data@), data@),
{
    data_url_of(sniff_image_kind(data), data)
}

/// The first step of caching an icon.
#[derive(Debug, Clone, Copy, PartialEq, Eq, Structural)]
pub enum IconStep {
    /// A non-empty icon is stored already: nothing to download.
    AlreadyPresent,
    /// The icon has to be downloaded.
    Download,
}

/// Decides whether the icon of `app_id` must be downloaded.
pub fn begin_icon_cache(store: &CatalogStore, app_id: &str) -> (r: IconStep)
    requires
        store.wf(),
    ensures
        (r == IconStep::AlreadyPresent) == (store.apps().contains_key(app_id@)
            && has_icon_bytes(store.apps()[app_id@])),
{
    if store.has_icon(app_id) {
        IconStep::AlreadyPresent
    } else {
        IconStep::Download
    }
}

/// Takes the answer to an icon download: stores the bytes on a 2xx status,
/// touching no other column, and fails with the status otherwise.
pub fn finish_icon_cache(store: &mut CatalogStore, app_id: &str, status: u16, bytes: Vec<u8>) -> (r: Result<(), CatalogError>)
    requires
        old(store).wf(),
    ensures
        final(store).wf(),
        final(store).categories() == old(store).categories(),
        final(store).collections() == old(store).collections(),
        200 <= status < 300 ==> r is Ok && (if old(store).apps().contains_key(app_id@) {
            final(store).apps() == old(store).apps().insert(app_id@, with_icon(old(store).apps()[app_id@], bytes@))
        } else {
            final(store).apps() == old(store).apps()
        }),
        !(200 <= status < 300) ==> r == Err::<(), CatalogError>(CatalogError::Transport(status))
            && final(store).apps() == old(store).apps(),
{
    if status < 200 || status >= 300 {
        return Err(CatalogError::Transport(status));
    }
    store.set_icon_data(app_id, bytes);
    Ok(())
}

/// Writing a non-empty icon makes the next attempt a no-op: once
/// `finish_icon_cache` has stored non-empty bytes for an app that is in the
/// store, `begin_icon_cache` answers `AlreadyPresent` for it.
pub proof fn law_icon_cache_idempotent(
    apps: Map<Seq<char>, crate::types::AppView>,
    app_id: Seq<char>,
    bytes: Seq<u8>,
)
    requires
        apps.contains_key(app_id),
        bytes.len() > 0,
    ensures
        ({
            let after = apps.insert(app_id, with_icon(apps[app_id], bytes));
            after.contains_key(app_id) && has_icon_bytes(after[app_id])
        }),
{
}

} // verus!
