//! Download metadata: the content type guessed from the file's name,
//! the exact content length, and a quoted attachment disposition.  The
//! bytes themselves are streamed by the caller in fixed-size chunks of
//! `DOWNLOAD_CHUNK` bytes, so memory stays bounded whatever the file's
//! size.
use vstd::prelude::*;
use crate::chars::dec_digits;
use crate::validate::AbsPath;

verus! {

/// Bytes per chunk when streaming a file: 256 KiB.
pub const DOWNLOAD_CHUNK: usize = 262144;

/// What `mime_guess` answers for a file name: a pure function of the
/// name's extension.
pub uninterp spec fn mime_text_of(name: Seq<char>) -> Seq<char>;

/// Relies on `mime_guess::from_path` and `first_or_octet_stream`: the
/// guess depends on the name's extension alone, and some non-empty
/// type always comes back, `application/octet-stream` when nothing is
/// known.
#[verifier::external_body]
pub fn guess_mime(name: &str) -> (r: String)
    ensures
        r@ == mime_text_of(name@),
        r@.len() > 0,
{
    mime_guess::from_path(name).first_or_octet_stream().to_string()
}

/// The name a download is served under: the path's last component,
/// with a fixed fallback for a bare root, which never names a file.
pub open spec fn download_name(p: Seq<Seq<char>>) -> Seq<char> {
    if p.len() == 0 {
        "download"@
    } else {
        p.last()
    }
}

/// The response metadata for one download.
#[derive(Debug)]
pub struct DownloadMeta {
    /// The file's bare name.
    pub filename: String,
    /// MIME type guessed from the name.
    pub content_type: String,
    /// Decimal byte count, the file's size at open time.
    pub content_length: String,
    /// Attachment disposition with the name quoted, so a name with
    /// spaces survives.
    pub content_disposition: String,
}

/// Builds the headers for downloading the file at `path` whose size,
/// read at open time, is `size` bytes.
pub fn download_headers(path: &AbsPath, size: u64) -> (m: DownloadMeta)
    ensures
        m.filename@ == download_name(path@),
        m.content_type@ == mime_text_of(download_name(path@)),
        m.content_length@ == dec_digits(size as nat),
        m.content_disposition@ == "attachment; filename=\""@ + download_name(path@) + "\""@,
{
    let filename: String = if path.segs.len() == 0 {
        String::from_str("download")
    } else {
        proof {
            assert(path@[path@.len() - 1] == path.segs@[path.segs@.len() - 1]@);
        }
        path.segs[path.segs.len() - 1].clone()
    };
    let content_type: String = guess_mime(filename.as_str());
    let content_length: String = crate::chars::u64_to_dec(size);
    let mut content_disposition: String = String::from_str("attachment; filename=\"");
    content_disposition.append(filename.as_str());
    content_disposition.push('"');
    proof {
        reveal_strlit("\"");
        assert("\""@ =~= seq!['"']);
        assert(content_disposition@ =~= "attachment; filename=\""@ + download_name(path@)
            + "\""@);
    }
    DownloadMeta { filename, content_type, content_length, content_disposition }
}

} // verus!
