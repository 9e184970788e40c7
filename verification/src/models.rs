//! Model files: picking a GGUF file from a Hugging Face repository listing,
//! the addresses it is fetched from, and download progress.

use vstd::prelude::*;
use crate::chains::{contains_chars, contains_text};
use crate::text::{chars_of, lowercase, push_decimal, push_str, string_of, to_lowercase};

verus! {

/// A file of a Hugging Face repository listing.
pub struct HuggingFaceFile {
    pub path: String,
    pub size: Option<u64>,
    pub download_url: Option<String>,
}

/// A model file on disk.
pub struct ModelInfo {
    pub id: String,
    pub filename: String,
    pub size: u64,
    pub path: String,
}

/// Progress of a model download, as it is reported to the user.
pub struct DownloadProgress {
    pub bytes_downloaded: u64,
    pub total_bytes: u64,
    pub filename: String,
    pub status: String,
}

/// Whether `s` ends with `suffix`.
pub open spec fn ends_with(s: Seq<char>, suffix: Seq<char>) -> bool {
    s.len() >= suffix.len() && s.skip(s.len() - suffix.len()) == suffix
}

/// A GGUF model file: its lowercased path ends with `.gguf`.
pub open spec fn is_gguf(path: Seq<char>) -> bool {
    ends_with(lowercase(path), ".gguf"@)
}

fn ends_with_chars(s: &Vec<char>, suffix: &Vec<char>) -> (b: bool)
    ensures
        b == ends_with(s@, suffix@),
{
    if s.len() < suffix.len() {
        return false;
    }
    let start = s.len() - suffix.len();
    let slen = s.len();
    let mut j: usize = 0;
    while j < suffix.len()
        invariant
            slen == s@.len(),
            start + suffix@.len() == s@.len(),
            j <= suffix@.len(),
            forall|m: int| 0 <= m < j ==> s@[start + m] == suffix@[m],
        decreases suffix.len() - j,
    {
        assert(start + j < slen);
        if s[start + j] != suffix[j] {
            assert(s@.skip(start as int)[j as int] != suffix@[j as int]);
            return false;
        }
        j = j + 1;
    }
    assert(s@.skip(start as int) =~= suffix@);
    true
}

/// Tells GGUF model files by their path.
pub fn is_gguf_path(path: &str) -> (b: bool)
    ensures
        b == is_gguf(path@),
{
    let lower = to_lowercase(path);
    let cs = chars_of(lower.as_str());
    let suffix = chars_of(".gguf");
    ends_with_chars(&cs, &suffix)
}

/// The first GGUF file of a listing, if any.
pub open spec fn first_gguf(files: Seq<HuggingFaceFile>) -> Option<int> {
    if exists|i: int| 0 <= i < files.len() && is_gguf(files[i].path@) {
        Some(choose|i: int| 0 <= i < files.len() && is_gguf(files[i].path@) && forall|j: int| 0 <= j < i ==> !is_gguf(files[j].path@))
    } else {
        None
    }
}

fn first_gguf_index(files: &[HuggingFaceFile]) -> (r: Option<usize>)
    ensures
        r matches Some(i) ==> i < files@.len(),
        r matches Some(i) ==> first_gguf(files@) == Some(i as int),
        r is None ==> first_gguf(files@) is None,
{
    let mut i: usize = 0;
    while i < files.len()
        invariant
            i <= files@.len(),
            forall|j: int| 0 <= j < i ==> !is_gguf(files@[j].path@),
        decreases files.len() - i,
    {
        if is_gguf_path(files[i].path.as_str()) {
            proof {
                assert(exists|c: int| 0 <= c < files@.len() && is_gguf(files@[c].path@) && forall|j: int| 0 <= j < c ==> !is_gguf(files@[j].path@)) by {
                    assert(is_gguf(files@[i as int].path@));
                }
                let c2 = choose|c: int| 0 <= c < files@.len() && is_gguf(files@[c].path@) && forall|j: int| 0 <= j < c ==> !is_gguf(files@[j].path@);
                if c2 > i {
                    assert(is_gguf(files@[i as int].path@));
                }
            }
            return Some(i);
        }
        i = i + 1;
    }
    None
}

/// The download address and size of the first GGUF file of a listing;
/// nothing where there is no GGUF file or the first has no address. A
/// missing size counts as zero.
pub fn find_gguf_file(files: &[HuggingFaceFile]) -> (r: Option<(String, u64)>)
    ensures
        match first_gguf(files@) {
            None => r is None,
            Some(i) => match files@[i].download_url {
                None => r is None,
                Some(url) => r matches Some(p) && p.0@ == url@ && p.1 == match files@[i].size {
                    Some(s) => s,
                    None => 0u64,
                },
            },
        },
{
    match first_gguf_index(files) {
        None => None,
        Some(i) => {
            let f = &files[i];
            match &f.download_url {
                None => None,
                Some(url) => {
                    let size = match f.size {
                        Some(s) => s,
                        None => 0,
                    };
                    Some((url.clone(), size))
                },
            }
        },
    }
}

/// The GGUF files among the first `n` of a listing, by path, in order.
pub open spec fn gguf_paths(files: Seq<HuggingFaceFile>, n: nat) -> Seq<Seq<char>>
    decreases n,
{
    if n == 0 {
        seq![]
    } else {
        let rest = gguf_paths(files, (n - 1) as nat);
        if is_gguf(files[n - 1].path@) { rest.push(files[n - 1].path@) } else { rest }
    }
}

/// Lists the paths of the GGUF files of a repository.
pub fn gguf_file_paths(files: &[HuggingFaceFile]) -> (r: Vec<String>)
    ensures
        crate::text::string_views(r@) == gguf_paths(files@, files@.len()),
{
    let mut r: Vec<String> = Vec::new();
    let mut i: usize = 0;
    while i < files.len()
        invariant
            i <= files@.len(),
            crate::text::string_views(r@) == gguf_paths(files@, i as nat),
        decreases files.len() - i,
    {
        if is_gguf_path(files[i].path.as_str()) {
            let ghost r0 = r@;
            r.push(files[i].path.clone());
            assert(crate::text::string_views(r@) =~= crate::text::string_views(r0).push(files@[i as int].path@));
        }
        i = i + 1;
    }
    r
}

/// The first file of the listing with exactly the path `name`.
pub open spec fn first_named(files: Seq<HuggingFaceFile>, name: Seq<char>) -> Option<int> {
    if exists|i: int| 0 <= i < files.len() && files[i].path@ == name {
        Some(choose|i: int| 0 <= i < files.len() && files[i].path@ == name && forall|j: int| 0 <= j < i ==> files[j].path@ != name)
    } else {
        None
    }
}

fn first_named_index(files: &[HuggingFaceFile], name: &String) -> (r: Option<usize>)
    ensures
        r matches Some(i) ==> i < files@.len(),
        r matches Some(i) ==> first_named(files@, name@) == Some(i as int),
        r is None ==> first_named(files@, name@) is None,
{
    let mut i: usize = 0;
    while i < files.len()
        invariant
            i <= files@.len(),
            forall|j: int| 0 <= j < i ==> files@[j].path@ != name@,
        decreases files.len() - i,
    {
        if files[i].path == *name {
            proof {
                assert(exists|c: int| 0 <= c < files@.len() && files@[c].path@ == name@ && forall|j: int| 0 <= j < c ==> files@[j].path@ != name@) by {
                    assert(files@[i as int].path@ == name@);
                }
                let c2 = choose|c: int| 0 <= c < files@.len() && files@[c].path@ == name@ && forall|j: int| 0 <= j < c ==> files@[j].path@ != name@;
                if c2 > i {
                    assert(files@[i as int].path@ == name@);
                }
            }
            return Some(i);
        }
        i = i + 1;
    }
    None
}

/// Which file a download takes: a name containing `.gguf` must be listed
/// exactly; any other name takes the first GGUF file of the listing.
pub open spec fn download_choice(files: Seq<HuggingFaceFile>, requested: Seq<char>) -> Result<int, Seq<char>> {
    if contains_text(requested, ".gguf"@) {
        match first_named(files, requested) {
            Some(i) => Ok(i),
            None => Err("File not found in repository"@),
        }
    } else {
        match first_gguf(files) {
            Some(i) => Ok(i),
            None => Err("No GGUF files found"@),
        }
    }
}

/// Picks the file of the listing that a download fetches.
pub fn choose_download_file(files: &[HuggingFaceFile], requested: &String) -> (r: Result<usize, String>)
    ensures
        match download_choice(files@, requested@) {
            Ok(i) => r == Ok::<usize, String>(i as usize),
            Err(e) => r matches Err(m) && m@ == e,
        },
{
    let name = chars_of(requested.as_str());
    let gguf = chars_of(".gguf");
    if contains_chars(&name, &gguf) {
        match first_named_index(files, requested) {
            Some(i) => Ok(i),
            None => Err(String::from_str("File not found in repository")),
        }
    } else {
        match first_gguf_index(files) {
            Some(i) => Ok(i),
            None => Err(String::from_str("No GGUF files found")),
        }
    }
}

/// The address a repository file is downloaded from.
pub fn download_url(repo_id: &str, path: &str) -> (r: String)
    ensures
        r@ == "https://huggingface.co/"@ + repo_id@ + "/resolve/main/"@ + path@,
{
    let mut out: Vec<char> = Vec::new();
    push_str(&mut out, "https://huggingface.co/");
    push_str(&mut out, repo_id);
    push_str(&mut out, "/resolve/main/");
    push_str(&mut out, path);
    string_of(out.as_slice())
}

/// The address of a repository's metadata.
pub fn repository_api_url(repo_id: &str) -> (r: String)
    ensures
        r@ == "https://huggingface.co/api/models/"@ + repo_id@,
{
    let mut out: Vec<char> = Vec::new();
    push_str(&mut out, "https://huggingface.co/api/models/");
    push_str(&mut out, repo_id);
    string_of(out.as_slice())
}

/// The size a download expects: what the server announces, else what the
/// listing says, else zero.
pub fn expected_size(content_length: Option<u64>, listed: Option<u64>) -> (r: u64)
    ensures
        r == match content_length {
            Some(n) => n,
            None => match listed {
                Some(n) => n,
                None => 0u64,
            },
        },
{
    match content_length {
        Some(n) => n,
        None => match listed {
            Some(n) => n,
            None => 0,
        },
    }
}

impl DownloadProgress {
    /// The report sent before the transfer starts.
    pub fn starting(filename: String) -> (r: DownloadProgress)
        ensures
            r.bytes_downloaded == 0,
            r.total_bytes == 0,
            r.filename == filename,
            r.status@ == "starting"@,
    {
        DownloadProgress { bytes_downloaded: 0, total_bytes: 0, filename, status: String::from_str("starting") }
    }

    /// The report sent after a chunk arrived, given the bytes received before
    /// it.
    pub fn chunk_received(before: u64, chunk: usize, total: u64, filename: String) -> (r: DownloadProgress)
        requires
            before + chunk <= u64::MAX,
        ensures
            r.bytes_downloaded == before + chunk,
            r.total_bytes == total,
            r.filename == filename,
            r.status@ == "downloading"@,
    {
        DownloadProgress {
            bytes_downloaded: before + chunk as u64,
            total_bytes: total,
            filename,
            status: String::from_str("downloading"),
        }
    }

    /// The report sent when the transfer finished.
    pub fn complete(bytes: u64, total: u64, filename: String) -> (r: DownloadProgress)
        ensures
            r.bytes_downloaded == bytes,
            r.total_bytes == total,
            r.filename == filename,
            r.status@ == "complete"@,
    {
        DownloadProgress { bytes_downloaded: bytes, total_bytes: total, filename, status: String::from_str("complete") }
    }
}

/// A downloaded model is a file whose extension is exactly `gguf`.
pub fn is_model_file(name: &str) -> (b: bool)
    ensures
        b == (crate::registry::extension_of(name@) == Some("gguf"@)),
{
    match crate::registry::file_extension(name) {
        Some(e) => {
            let gguf = String::from_str("gguf");
            e == gguf
        },
        None => false,
    }
}

} // verus!
