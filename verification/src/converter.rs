//! The two conversions from files to files, and the lines that show an
//! archive.

use crate::codec::{decode, encode, parsed, serialized};
use crate::entry::{files, Entry};
use crate::error::ScpError;
use crate::pack_archiver::{archive_plan, sealed, PackArchiver};
use crate::pack_extractor::{listing_line, manifest_of, staged_assets, Fault, PackExtractor};
use crate::text::{decimal, decode_text, join, to_decimal};
use vstd::prelude::*;
use vstd::string::*;
use vstd::utf8::*;

verus! {

/// The name of the manifest file in a pack.
pub open spec fn manifest_name() -> Seq<char> {
    "db.json"@
}

/// The entries of the archive of a pack, from the bytes of its manifest and
/// the files of its repository, where the manifest can be read and every
/// document written.
pub open spec fn archive_of(manifest: Seq<u8>, assets: Seq<(Seq<char>, Seq<u8>)>) -> Option<
    Seq<(Seq<char>, Seq<u8>)>,
> {
    match parsed(manifest) {
        Some(m) => sealed(archive_plan(m, assets)),
        None => None,
    }
}

/// The files of the pack that an archive holds: the manifest, then the
/// assets.
pub open spec fn pack_of(entries: Seq<(Seq<char>, Seq<u8>)>) -> Result<
    Seq<(Seq<char>, Seq<u8>)>,
    Fault,
> {
    match manifest_of(entries) {
        Ok(m) => match serialized(m) {
            Some(bytes) => Ok(seq![(manifest_name(), bytes)] + staged_assets(entries)),
            None => Err(Fault::Document),
        },
        Err(fault) => Err(fault),
    }
}

/// The lines that show the entries of an archive: a heading, then each
/// entry's line behind its number, counted from one.
pub open spec fn contents_lines(scp_file: Seq<char>, entries: Seq<(Seq<char>, Seq<u8>)>) -> Seq<
    Seq<char>,
> {
    seq!["Contents of "@ + scp_file + ":"@] + Seq::new(
        entries.len(),
        |i: int| "  "@ + decimal((i + 1) as nat) + ": "@ + listing_line(entries[i]),
    )
}

/// The lines that show a file of an archive: a heading and the text, where
/// the content is text; one line with its size, where it is not.
pub open spec fn file_lines(scp_file: Seq<char>, file_path: Seq<char>, content: Seq<u8>) -> Seq<
    Seq<char>,
> {
    if valid_utf8(content) {
        seq![
            "Content of "@ + file_path + " in "@ + scp_file + ":"@,
            decode_utf8(content),
        ]
    } else {
        seq!["File "@ + file_path + " is binary ("@ + decimal(content.len()) + " bytes)"@]
    }
}

/// The texts of a sequence of strings.
pub open spec fn lines(v: Seq<String>) -> Seq<Seq<char>> {
    v.map_values(|s: String| s@)
}

/// Converts between the files of a pack and the entries of an archive.
pub struct Converter {
    archiver: PackArchiver,
    extractor: PackExtractor,
}

impl Converter {
    /// The level at which this converter has archives compressed.
    pub closed spec fn level(self) -> i64 {
        self.archiver.level()
    }

    /// A converter that has archives compressed at the default level.
    pub fn new() -> (r: Converter)
        ensures
            r.level() == PackArchiver::default_level(),
    {
        Converter { archiver: PackArchiver::new(), extractor: PackExtractor::new() }
    }

    /// The converter with another level of compression.
    pub fn with_compression_level(self, level: i64) -> (r: Converter)
        ensures
            r.level() == level,
    {
        Converter {
            archiver: self.archiver.with_compression_level(level),
            extractor: self.extractor,
        }
    }

    /// The level at which the entries of an archive are to be compressed.
    pub fn compression_level(&self) -> (r: i64)
        ensures
            r == self.level(),
    {
        self.archiver.compression_level()
    }

    /// The entries of the archive of a pack, from the bytes of its manifest
    /// and the files of its repository.
    pub fn pack_to_scp(&self, manifest: &[u8], assets: &Vec<Entry>) -> (r: Result<
        Vec<Entry>,
        ScpError,
    >)
        ensures
            match r {
                Ok(entries) => archive_of(manifest@, files(assets@)) == Some(files(entries@)),
                Err(e) => archive_of(manifest@, files(assets@)) is None && e is Json,
            },
    {
        match decode(manifest) {
            Ok(m) => self.archiver.archive(&m, assets),
            Err(e) => Err(e),
        }
    }

    /// The files of the pack that an archive holds, the manifest first.
    pub fn scp_to_pack(&self, entries: &Vec<Entry>) -> (r: Result<Vec<Entry>, ScpError>)
        ensures
            match r {
                Ok(pack) => pack_of(files(entries@)) == Ok::<Seq<(Seq<char>, Seq<u8>)>, Fault>(
                    files(pack@),
                ),
                Err(e) => pack_of(files(entries@)) matches Err(fault) && fault.reported_as(e),
            },
    {
        match self.extractor.extract(entries) {
            Ok(pack) => match encode(&pack.manifest) {
                Ok(bytes) => {
                    let mut out: Vec<Entry> = Vec::new();
                    let ghost b = bytes@;
                    out.push(Entry { name: String::from_str("db.json"), bytes });
                    let ghost head = files(out@);
                    assert(head =~= seq![(manifest_name(), b)]);
                    let mut assets = pack.assets;
                    let ghost tail = files(assets@);
                    out.append(&mut assets);
                    assert(files(out@) =~= head + tail);
                    Ok(out)
                },
                Err(e) => Err(e),
            },
            Err(e) => Err(e),
        }
    }

    /// The lines that show the entries of an archive.
    pub fn list_scp_contents(&self, scp_file: &str, entries: &Vec<Entry>) -> (r: Vec<String>)
        ensures
            lines(r@) == contents_lines(scp_file@, files(entries@)),
    {
        let contents = self.extractor.list_contents(entries);
        let mut out: Vec<String> = Vec::new();
        out.push(join("Contents of ", scp_file).concat(":"));
        let mut i: usize = 0;
        while i < contents.len()
            invariant
                i <= contents@.len(),
                contents@.len() == entries@.len(),
                forall|k: int|
                    0 <= k < contents@.len() ==> (#[trigger] contents@[k])@ == listing_line(
                        entries@[k]@,
                    ),
                out@.len() == i + 1,
                out@[0]@ == "Contents of "@ + scp_file@ + ":"@,
                forall|k: int|
                    0 <= k < i ==> (#[trigger] out@[k + 1])@ == "  "@ + decimal((k + 1) as nat)
                        + ": "@ + listing_line(entries@[k]@),
            decreases contents@.len() - i,
        {
            let number = to_decimal(i + 1);
            let line = String::from_str("  ").concat(number.as_str()).concat(": ").concat(
                contents[i].as_str(),
            );
            out.push(line);
            i += 1;
        }
        assert(lines(out@) =~= contents_lines(scp_file@, files(entries@))) by {
            let want = contents_lines(scp_file@, files(entries@));
            assert(lines(out@).len() == want.len());
            assert forall|k: int| 0 <= k < want.len() implies lines(out@)[k] == want[k] by {
                if k > 0 {
                    assert(out@[(k - 1) + 1]@ == want[k]);
                }
            }
        }
        out
    }

    /// The lines that show a file of an archive.
    pub fn show_file(&self, scp_file: &str, file_path: &str, content: &[u8]) -> (r: Vec<String>)
        ensures
            lines(r@) == file_lines(scp_file@, file_path@, content@),
    {
        let mut out: Vec<String> = Vec::new();
        match decode_text(content) {
            Some(text) => {
                out.push(
                    String::from_str("Content of ").concat(file_path).concat(" in ").concat(
                        scp_file,
                    ).concat(":"),
                );
                out.push(text);
            },
            None => {
                out.push(
                    String::from_str("File ").concat(file_path).concat(" is binary (").concat(
                        to_decimal(content.len()).as_str(),
                    ).concat(" bytes)"),
                );
            },
        }
        assert(lines(out@) =~= file_lines(scp_file@, file_path@, content@));
        out
    }
}

impl Default for Converter {
    fn default() -> (r: Converter)
        ensures
            r.level() == PackArchiver::default_level(),
    {
        Converter::new()
    }
}

} // verus!
