use vstd::prelude::*;

pub mod archive;
pub mod error;
pub mod text;
pub mod usd;
pub mod zip;

pub use error::ParseError;
pub use usd::{Usd, UsdComment, UsdNode, UsdPart, UsdProperty};
pub use zip::{
    parse_zip_file, CentralDirectoryHeader, EndOfCentralDirectoryRecord, LocalFileHeader, ZipFile,
    ZipFilePart,
};

use vstd::string::StringExecFns;
use zip::{spec_zip_file, ZipFilePartView};

verus! {

/// The names of the local file headers among `parts`, in order.
pub open spec fn local_file_names(parts: Seq<ZipFilePartView>) -> Seq<Seq<char>>
    decreases parts.len(),
{
    if parts.len() == 0 {
        seq![]
    } else {
        let rest = local_file_names(parts.drop_first());
        match parts[0] {
            ZipFilePartView::LocalFileHeader(h) => seq![h.file_name] + rest,
            _ => rest,
        }
    }
}

/// The payload of the first local file header among `parts` named `name`:
/// absent when there is none, or when that entry's payload was not decoded.
pub open spec fn file_data(parts: Seq<ZipFilePartView>, name: Seq<char>) -> Option<Seq<u8>>
    decreases parts.len(),
{
    if parts.len() == 0 {
        None
    } else {
        match parts[0] {
            ZipFilePartView::LocalFileHeader(h) if h.file_name == name => h.uncompressed_data,
            _ => file_data(parts.drop_first(), name),
        }
    }
}

/// A name that no local file header carries has no data.
pub proof fn lemma_absent_name_has_no_data(parts: Seq<ZipFilePartView>, name: Seq<char>)
    requires
        !local_file_names(parts).contains(name),
    ensures
        file_data(parts, name) is None,
    decreases parts.len(),
{
    if parts.len() > 0 {
        let rest = parts.drop_first();
        match parts[0] {
            ZipFilePartView::LocalFileHeader(h) => {
                assert((seq![h.file_name] + local_file_names(rest))[0] == h.file_name);
                assert forall|x: Seq<char>| local_file_names(rest).contains(x) implies
                    local_file_names(parts).contains(x) by {
                    let i = choose|i: int| 0 <= i < local_file_names(rest).len()
                        && local_file_names(rest)[i] == x;
                    assert((seq![h.file_name] + local_file_names(rest))[i + 1] == x);
                }
            },
            _ => {},
        }
        lemma_absent_name_has_no_data(rest, name);
    }
}

/// A decoded USDZ archive.
pub struct UsdzFile {
    pub zip_file: ZipFile,
}

impl View for UsdzFile {
    type V = Seq<ZipFilePartView>;

    open spec fn view(&self) -> Seq<ZipFilePartView> {
        self.zip_file@
    }
}

/// A copy of an optional byte block.
fn clone_bytes(o: &Option<Vec<u8>>) -> (r: Option<Vec<u8>>)
    ensures
        zip::optional_bytes_view(r) == zip::optional_bytes_view(*o),
{
    match o {
        Some(v) => Some(vstd::slice::slice_to_vec(v.as_slice())),
        None => None,
    }
}

impl UsdzFile {
    /// Decodes `buffer` as an archive.
    pub fn parse(buffer: &[u8]) -> (r: Result<UsdzFile, ParseError>)
        ensures
            match r {
                Ok(u) => spec_zip_file(buffer@) == Ok::<_, ParseError>(u@),
                Err(e) => spec_zip_file(buffer@) == Err::<Seq<ZipFilePartView>, _>(e),
            },
    {
        match parse_zip_file(buffer) {
            Ok(zip_file) => Ok(UsdzFile { zip_file }),
            Err(e) => Err(e),
        }
    }

    /// The names of the archive's local file headers, in archive order.
    pub fn get_files(&self) -> (r: Vec<String>)
        ensures
            r@.map_values(|s: String| s@) == local_file_names(self@),
    {
        let parts = &self.zip_file.parts;
        let ghost all = self@;
        let mut files: Vec<String> = Vec::new();
        let mut i: usize = 0;
        proof {
            assert(all.subrange(0, all.len() as int) =~= all);
            assert(files@.map_values(|s: String| s@) + local_file_names(all) =~= local_file_names(all));
        }
        while i < parts.len()
            invariant
                i <= parts@.len(),
                all == parts@.map_values(|p: ZipFilePart| p@),
                local_file_names(all) == files@.map_values(|s: String| s@) + local_file_names(
                    all.subrange(i as int, all.len() as int),
                ),
            decreases parts@.len() - i,
        {
            let ghost before = files@.map_values(|s: String| s@);
            let ghost tail = all.subrange(i as int, all.len() as int);
            assert(tail.drop_first() =~= all.subrange(i + 1, all.len() as int));
            match &parts[i] {
                ZipFilePart::LocalFileHeader(h) => {
                    files.push(h.file_name.clone());
                    assert(files@.map_values(|s: String| s@) =~= before + seq![h.file_name@]);
                    assert(before + (seq![h.file_name@] + local_file_names(tail.drop_first()))
                        =~= (before + seq![h.file_name@]) + local_file_names(tail.drop_first()));
                },
                _ => {},
            }
            i = i + 1;
        }
        proof {
            assert(all.subrange(i as int, all.len() as int) =~= Seq::<ZipFilePartView>::empty());
            assert(files@.map_values(|s: String| s@) + Seq::<Seq<char>>::empty()
                =~= files@.map_values(|s: String| s@));
        }
        files
    }

    /// The payload of the first local file header named exactly `file_name`;
    /// absent when no entry has that name or its payload was not decoded.
    pub fn get_file_data(&self, file_name: &str) -> (r: Option<Vec<u8>>)
        ensures
            zip::optional_bytes_view(r) == file_data(self@, file_name@),
            !local_file_names(self@).contains(file_name@) ==> r is None,
    {
        proof {
            if !local_file_names(self@).contains(file_name@) {
                lemma_absent_name_has_no_data(self@, file_name@);
            }
        }
        let parts = &self.zip_file.parts;
        let ghost all = self@;
        let target = String::from_str(file_name);
        let mut i: usize = 0;
        assert(all.subrange(0, all.len() as int) =~= all);
        while i < parts.len()
            invariant
                i <= parts@.len(),
                target@ == file_name@,
                all == self@,
                all == parts@.map_values(|p: ZipFilePart| p@),
                !local_file_names(all).contains(file_name@) ==> file_data(all, file_name@) is None,
                file_data(all, file_name@) == file_data(
                    all.subrange(i as int, all.len() as int),
                    file_name@,
                ),
            decreases parts@.len() - i,
        {
            let ghost tail = all.subrange(i as int, all.len() as int);
            assert(tail.drop_first() =~= all.subrange(i + 1, all.len() as int));
            match &parts[i] {
                ZipFilePart::LocalFileHeader(h) => {
                    if h.file_name == target {
                        assert(tail[0] == ZipFilePartView::LocalFileHeader(h@));
                        return clone_bytes(&h.uncompressed_data);
                    }
                },
                _ => {},
            }
            i = i + 1;
        }
        None
    }
}

} // verus!
