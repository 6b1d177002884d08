//! Importing a project archive: which entry holds the project file, and where the
//! archive unpacks.

use vstd::prelude::*;
use crate::model::project::{join_path, join_path_spec, project_dir_name, project_dir_name_spec};
use crate::text::{chars_of, str_eq};

verus! {

#[verifier::external_type_specification]
#[verifier::external_body]
pub struct ExZipError(zip::result::ZipError);

/// One entry of a ZIP archive as the `zip` crate reads it: `None` when the entry cannot
/// be opened (`ZipArchive::by_index` fails), else its name and its decompressed contents,
/// the contents `None` when reading them fails.
pub open spec fn entry_view(e: Result<(String, Result<Vec<u8>, zip::result::ZipError>), zip::result::ZipError>) -> Option<(Seq<char>, Option<Seq<u8>>)> {
    match e {
        Ok((name, Ok(data))) => Some((name@, Some(data@))),
        Ok((name, Err(_))) => Some((name@, None)),
        Err(_) => None,
    }
}

/// The entries of a ZIP archive, in the archive's order, each as `entry_view` gives it;
/// `None` when the bytes cannot be opened as an archive (`ZipArchive::new` fails).
pub uninterp spec fn zip_entries(bytes: Seq<u8>) -> Option<Seq<Option<(Seq<char>, Option<Seq<u8>>)>>>;

/// Read entries, by their views.
pub open spec fn entries_view(v: Seq<Result<(String, Result<Vec<u8>, zip::result::ZipError>), zip::result::ZipError>>) -> Seq<Option<(Seq<char>, Option<Seq<u8>>)>> {
    v.map_values(|e: Result<(String, Result<Vec<u8>, zip::result::ZipError>), zip::result::ZipError>| entry_view(e))
}

/// Opens a ZIP archive with `zip::ZipArchive::new` over the bytes, then, for each index
/// in turn, opens the entry with `ZipArchive::by_index` and reads it with
/// `Read::read_to_end`, keeping each failure in its place.  Trusted: it opens exactly
/// when `zip_entries` gives entries, and then gives them; which `ZipError` a failure
/// carries is not stated.
#[verifier::external_body]
fn read_zip_entries(bytes: &[u8]) -> (r: Result<Vec<Result<(String, Result<Vec<u8>, zip::result::ZipError>), zip::result::ZipError>>, zip::result::ZipError>)
    ensures
        (r is Ok) == (zip_entries(bytes@) is Some),
        r matches Ok(v) ==> entries_view(v@) == zip_entries(bytes@)->0,
{
    let mut archive = zip::ZipArchive::new(std::io::Cursor::new(bytes))?;
    let mut entries = Vec::new();
    for i in 0..archive.len() {
        entries.push(archive.by_index(i).map(|mut file| {
            let mut buf = Vec::new();
            let data = std::io::Read::read_to_end(&mut file, &mut buf).map(|_| buf);
            (file.name().to_string(), data.map_err(zip::result::ZipError::from))
        }));
    }
    Ok(entries)
}

/// Why an archive cannot be imported.
pub enum ImportError {
    /// The bytes are not a readable ZIP archive, or an entry up to the project file, or
    /// the project file itself, cannot be read.
    Archive(zip::result::ZipError),
    /// No entry is named `chronicle.json`.
    NoProjectFile,
}

/// How the search for the project file ends.
pub enum ScanEnd {
    /// The project file is the entry at this index, and it was read.
    Found(int),
    /// The entry at this index could not be opened, or it is the project file and could
    /// not be read.
    Unreadable(int),
    /// No entry is named `chronicle.json`.
    Missing,
}

/// The search for the project file from entry `i` on: entries are opened in order, and
/// the search stops at the first that cannot be opened or that is named `chronicle.json`.
pub open spec fn scan_from(es: Seq<Option<(Seq<char>, Option<Seq<u8>>)>>, i: int) -> ScanEnd
    decreases es.len() - i,
{
    if i < 0 || i >= es.len() {
        ScanEnd::Missing
    } else {
        match es[i] {
            None => ScanEnd::Unreadable(i),
            Some((name, data)) => if name == "chronicle.json"@ {
                if data is Some {
                    ScanEnd::Found(i)
                } else {
                    ScanEnd::Unreadable(i)
                }
            } else {
                scan_from(es, i + 1)
            },
        }
    }
}

/// Reads a project archive: its entries, each in its place with what reading it gave,
/// and the index of the project file.  Entries are looked at in order up to the first
/// one named `chronicle.json`: the import fails with `Archive` when the bytes are not an
/// archive or one of those entries cannot be opened, or the project file cannot be read;
/// with `NoProjectFile` when no entry has that name.
pub fn read_project_archive(bytes: &[u8]) -> (r: Result<(Vec<Result<(String, Result<Vec<u8>, zip::result::ZipError>), zip::result::ZipError>>, usize), ImportError>)
    ensures
        zip_entries(bytes@) is None ==> r matches Err(ImportError::Archive(_)),
        zip_entries(bytes@) matches Some(es) ==> match scan_from(es, 0) {
            ScanEnd::Found(k) => r matches Ok((v, i)) && entries_view(v@) == es && i as int == k,
            ScanEnd::Unreadable(_) => r matches Err(ImportError::Archive(_)),
            ScanEnd::Missing => r matches Err(ImportError::NoProjectFile),
        },
{
    let mut entries = match read_zip_entries(bytes) {
        Ok(v) => v,
        Err(e) => {
            return Err(ImportError::Archive(e));
        },
    };
    let ghost es = entries_view(entries@);
    let mut i: usize = 0;
    while i < entries.len()
        invariant
            i <= entries@.len(),
            es == entries_view(entries@),
            zip_entries(bytes@) == Some(es),
            scan_from(es, 0) == scan_from(es, i as int),
        decreases entries@.len() - i,
    {
        assert(es[i as int] == entry_view(entries@[i as int]));
        let (stop, found) = match &entries[i] {
            Err(_) => (true, false),
            Ok((name, data)) => if str_eq(name.as_str(), "chronicle.json") {
                (true, data.is_ok())
            } else {
                (false, false)
            },
        };
        if found {
            return Ok((entries, i));
        }
        if stop {
            match entries.remove(i) {
                Err(e) => {
                    return Err(ImportError::Archive(e));
                },
                Ok((_, Err(e))) => {
                    return Err(ImportError::Archive(e));
                },
                Ok((_, Ok(_))) => {
                    return Err(ImportError::NoProjectFile);
                },
            }
        }
        i += 1;
    }
    Err(ImportError::NoProjectFile)
}

/// The directory a project named `project_name` unpacks into under `projects_dir`: the
/// project's folder name, or `imported` when nothing of the name is left.
pub fn import_root_dir(project_name: &str, projects_dir: &str) -> (r: String)
    ensures
        r@ == join_path_spec(projects_dir@, project_dir_name_spec(project_name@, "imported"@)),
{
    let safe = project_dir_name(project_name, "imported");
    join_path(projects_dir, safe.as_str())
}

/// Where an archive entry unpacks under `root_dir`, and whether it is a directory
/// (its name ends with `/`).
pub fn entry_target(root_dir: &str, name: &str) -> (r: (String, bool))
    ensures
        r.0@ == join_path_spec(root_dir@, name@),
        r.1 == (name@.len() > 0 && name@.last() == '/'),
{
    let cs = chars_of(name);
    let is_dir = cs.len() > 0 && cs[cs.len() - 1] == '/';
    (join_path(root_dir, name), is_dir)
}

} // verus!
