//! Finding the video files of a directory and naming the stream of each.

use crate::text::{
    ascii_lower_char, ascii_lowercase, folds_to, join_path, join_path_spec, lowercase_spec,
    to_lowercase,
};
use vstd::prelude::*;
use vstd::string::*;
use vstd::utf8::is_ascii_chars;

verus! {

/// One entry of a directory, as its listing gives it.
#[derive(Clone, Debug)]
pub struct DirEntry {
    /// The entry's name within the directory.
    pub file_name: String,
    /// Whether the entry is a regular file.
    pub is_file: bool,
}

pub struct DirEntryView {
    pub file_name: Seq<char>,
    pub is_file: bool,
}

impl View for DirEntry {
    type V = DirEntryView;

    open spec fn view(&self) -> DirEntryView {
        DirEntryView { file_name: self.file_name@, is_file: self.is_file }
    }
}

/// What was found at the place of the source directory.
#[derive(Clone, Debug)]
pub enum Listing {
    /// No such directory exists.
    Missing,
    /// The directory's entries, in the order in which the platform gave them.
    Entries(Vec<DirEntry>),
}

/// A video file that is to be served.
#[derive(Clone, Debug)]
pub struct SourceAsset {
    /// Where the file lies: the scanned directory and the file's name.
    pub file_path: String,
    /// The file's name without its extension. It becomes the last segment of
    /// the mount path as it stands.
    pub stream_id: String,
    /// The file's extension in lower case.
    pub extension: String,
}

pub struct SourceAssetView {
    pub file_path: Seq<char>,
    pub stream_id: Seq<char>,
    pub extension: Seq<char>,
}

impl View for SourceAsset {
    type V = SourceAssetView;

    open spec fn view(&self) -> SourceAssetView {
        SourceAssetView {
            file_path: self.file_path@,
            stream_id: self.stream_id@,
            extension: self.extension@,
        }
    }
}

/// Why a directory could not be scanned.
#[derive(Clone, Copy, Debug, PartialEq, Eq, Structural)]
pub enum ScanError {
    /// The source directory does not exist.
    DirectoryMissing,
}

impl ScanError {
    /// A line for the operator.
    pub fn message(&self) -> (r: &'static str)
        ensures
            r@ == "source directory not found"@,
    {
        "source directory not found"
    }
}

/// The views of the items of `items`, in order.
pub open spec fn views<T: View>(items: Seq<T>) -> Seq<T::V> {
    items.map_values(|item: T| item@)
}

/// Whether `extension`, taken as it stands, names a container format that
/// can be served: one of mp4, avi, mkv, mov, webm, flv, wmv, m4v, 3gp.
pub open spec fn is_supported(extension: Seq<char>) -> bool {
    ||| extension == "mp4"@
    ||| extension == "avi"@
    ||| extension == "mkv"@
    ||| extension == "mov"@
    ||| extension == "webm"@
    ||| extension == "flv"@
    ||| extension == "wmv"@
    ||| extension == "m4v"@
    ||| extension == "3gp"@
}

/// The position of the last `.` in `name`, or -1 where it holds none.
pub open spec fn last_dot(name: Seq<char>) -> int
    decreases name.len(),
{
    if name.len() == 0 {
        -1
    } else if name.last() == '.' {
        name.len() - 1
    } else {
        last_dot(name.drop_last())
    }
}

/// Whether the file name `name` has an extension: it holds a `.` beyond its
/// first character, and is not the name `..` of the parent directory.
pub open spec fn has_extension(name: Seq<char>) -> bool {
    last_dot(name) > 0 && name != seq!['.', '.']
}

/// What follows the last `.` of `name`.
pub open spec fn extension_of(name: Seq<char>) -> Seq<char> {
    name.subrange(last_dot(name) + 1, name.len() as int)
}

/// A file name without its extension: what precedes the last `.`, or all of
/// `name` where it has no extension.
pub open spec fn stem_of(name: Seq<char>) -> Seq<char> {
    if has_extension(name) {
        name.subrange(0, last_dot(name))
    } else {
        name
    }
}

/// Whether a directory entry is served: a regular file whose extension,
/// lower-cased, is supported.
pub open spec fn is_video(entry: DirEntryView) -> bool {
    &&& entry.is_file
    &&& has_extension(entry.file_name)
    &&& is_supported(lowercase_spec(extension_of(entry.file_name)))
}

/// The asset that the entry `entry` of `directory` gives.
pub open spec fn asset_of(directory: Seq<char>, entry: DirEntryView) -> SourceAssetView {
    SourceAssetView {
        file_path: join_path_spec(directory, entry.file_name),
        stream_id: stem_of(entry.file_name),
        extension: lowercase_spec(extension_of(entry.file_name)),
    }
}

/// The assets of a directory: one for each entry that is served, in the
/// order of the entries.
pub open spec fn assets_of(directory: Seq<char>, entries: Seq<DirEntryView>) -> Seq<
    SourceAssetView,
>
    decreases entries.len(),
{
    if entries.len() == 0 {
        Seq::empty()
    } else if is_video(entries.last()) {
        assets_of(directory, entries.drop_last()).push(asset_of(directory, entries.last()))
    } else {
        assets_of(directory, entries.drop_last())
    }
}

/// What `last_dot` finds is a `.`, and none follows it.
pub proof fn lemma_last_dot(name: Seq<char>)
    ensures
        -1 <= last_dot(name) < name.len(),
        last_dot(name) >= 0 ==> name[last_dot(name)] == '.',
        forall|i: int| last_dot(name) < i < name.len() ==> #[trigger] name[i] != '.',
    decreases name.len(),
{
    if name.len() > 0 && name.last() != '.' {
        let front = name.drop_last();
        lemma_last_dot(front);
        assert forall|i: int| last_dot(name) < i < name.len() implies #[trigger] name[i]
            != '.' by {
            if i < front.len() {
                assert(front[i] != '.');
            }
        }
    }
}

/// A name that has an extension is its stem, a `.`, and the extension:
/// splitting loses nothing and changes no character.
pub proof fn lemma_name_splits(name: Seq<char>)
    requires
        has_extension(name),
    ensures
        stem_of(name) + seq!['.'] + extension_of(name) == name,
        stem_of(name).len() > 0,
{
    lemma_last_dot(name);
    assert(stem_of(name) + seq!['.'] + extension_of(name) =~= name);
}

/// Whether a file is served depends on its extension only through the
/// lower-case form of it: two files whose extensions differ in case alone
/// are both served or both left out.
pub proof fn lemma_served_whatever_the_case(one: DirEntryView, other: DirEntryView)
    requires
        one.is_file && other.is_file,
        has_extension(one.file_name) && has_extension(other.file_name),
        lowercase_spec(extension_of(one.file_name)) == lowercase_spec(
            extension_of(other.file_name),
        ),
    ensures
        is_video(one) == is_video(other),
{
}

/// Whether two texts are the same but for the case of their ASCII letters.
pub open spec fn same_but_for_case(one: Seq<char>, other: Seq<char>) -> bool {
    &&& one.len() == other.len()
    &&& forall|i: int|
        0 <= i < one.len() ==> ascii_lower_char(#[trigger] one[i]) == ascii_lower_char(other[i])
}

/// The supported extensions are written in lower-case ASCII letters and
/// digits, so that folding leaves them as they are.
pub proof fn lemma_supported_is_lower_case(extension: Seq<char>)
    requires
        is_supported(extension),
    ensures
        is_ascii_chars(extension),
        ascii_lowercase(extension) == extension,
        lowercase_spec(extension) == extension,
{
    reveal_strlit("mp4");
    reveal_strlit("avi");
    reveal_strlit("mkv");
    reveal_strlit("mov");
    reveal_strlit("webm");
    reveal_strlit("flv");
    reveal_strlit("wmv");
    reveal_strlit("m4v");
    reveal_strlit("3gp");
    assert(ascii_lowercase(extension) =~= extension);
}

/// A file whose extension is a supported one in any mix of upper and lower
/// case is served, and its asset carries the extension in lower case.
pub proof fn lemma_case_variants_served(
    directory: Seq<char>,
    entry: DirEntryView,
    supported: Seq<char>,
)
    requires
        entry.is_file,
        has_extension(entry.file_name),
        is_supported(supported),
        same_but_for_case(extension_of(entry.file_name), supported),
    ensures
        is_video(entry),
        asset_of(directory, entry).extension == supported,
{
    let raw = extension_of(entry.file_name);
    lemma_supported_is_lower_case(supported);
    assert forall|i: int| 0 <= i < raw.len() implies '\0' <= #[trigger] raw[i] <= '\u{7f}' by {
        assert(ascii_lower_char(raw[i]) == ascii_lower_char(supported[i]));
        assert(ascii_lowercase(supported)[i] == supported[i]);
    }
    assert(ascii_lowercase(raw) =~= supported) by {
        assert forall|i: int| 0 <= i < raw.len() implies ascii_lowercase(raw)[i]
            == supported[i] by {
            assert(ascii_lower_char(raw[i]) == ascii_lower_char(supported[i]));
            assert(ascii_lowercase(supported)[i] == supported[i]);
        }
    }
}

/// A file whose extension is ASCII text is served only where the extension
/// is a supported one but for the case of its letters.
pub proof fn lemma_other_extensions_left_out(entry: DirEntryView)
    requires
        is_video(entry),
        is_ascii_chars(extension_of(entry.file_name)),
    ensures
        exists|supported: Seq<char>|
            is_supported(supported) && #[trigger] same_but_for_case(
                extension_of(entry.file_name),
                supported,
            ),
{
    let raw = extension_of(entry.file_name);
    let supported = ascii_lowercase(raw);
    lemma_supported_is_lower_case(supported);
    assert forall|i: int| 0 <= i < raw.len() implies ascii_lower_char(#[trigger] raw[i])
        == ascii_lower_char(supported[i]) by {
        assert(ascii_lowercase(supported)[i] == supported[i]);
    }
    assert(same_but_for_case(raw, supported));
}

/// The assets of a directory are those of the entries that are served,
/// each once and in the order of the listing.
pub proof fn lemma_assets_are_served_entries(directory: Seq<char>, entries: Seq<DirEntryView>)
    ensures
        assets_of(directory, entries) == entries.filter(|e: DirEntryView| is_video(e)).map_values(
            |e: DirEntryView| asset_of(directory, e),
        ),
    decreases entries.len(),
{
    reveal(Seq::filter);
    let served = entries.filter(|e: DirEntryView| is_video(e));
    if entries.len() == 0 {
        assert(assets_of(directory, entries) =~= served.map_values(
            |e: DirEntryView| asset_of(directory, e),
        ));
    } else {
        lemma_assets_are_served_entries(directory, entries.drop_last());
        assert(assets_of(directory, entries) =~= served.map_values(
            |e: DirEntryView| asset_of(directory, e),
        ));
    }
}

/// Whether `asset` is the asset of one of the entries that are served.
pub open spec fn comes_from_served_entry(
    directory: Seq<char>,
    entries: Seq<DirEntryView>,
    asset: SourceAssetView,
) -> bool {
    exists|i: int|
        0 <= i < entries.len() && is_video(#[trigger] entries[i]) && asset == asset_of(
            directory,
            entries[i],
        )
}

/// Every entry that is served has its asset among the assets of the
/// directory, and every asset is that of an entry that is served: nothing
/// is left out and nothing else comes in.
pub proof fn lemma_scan_exact(directory: Seq<char>, entries: Seq<DirEntryView>)
    ensures
        assets_of(directory, entries).len() <= entries.len(),
        forall|i: int|
            0 <= i < entries.len() && is_video(#[trigger] entries[i]) ==> assets_of(
                directory,
                entries,
            ).contains(asset_of(directory, entries[i])),
        forall|k: int|
            0 <= k < assets_of(directory, entries).len() ==> comes_from_served_entry(
                directory,
                entries,
                #[trigger] assets_of(directory, entries)[k],
            ),
    decreases entries.len(),
{
    let assets = assets_of(directory, entries);
    if entries.len() > 0 {
        let front = entries.drop_last();
        let before = assets_of(directory, front);
        lemma_scan_exact(directory, front);
        assert forall|i: int| 0 <= i < entries.len() && is_video(
            #[trigger] entries[i],
        ) implies assets.contains(asset_of(directory, entries[i])) by {
            if i < front.len() {
                assert(is_video(front[i]));
                let k = choose|k: int|
                    0 <= k < before.len() && before[k] == asset_of(directory, front[i]);
                assert(assets[k] == asset_of(directory, entries[i]));
            } else {
                assert(assets[assets.len() - 1] == asset_of(directory, entries[i]));
            }
        }
        assert forall|k: int| 0 <= k < assets.len() implies comes_from_served_entry(
            directory,
            entries,
            #[trigger] assets[k],
        ) by {
            if k < before.len() {
                assert(comes_from_served_entry(directory, front, before[k]));
                let i = choose|i: int|
                    0 <= i < front.len() && is_video(#[trigger] front[i]) && before[k]
                        == asset_of(directory, front[i]);
                assert(is_video(entries[i]) && assets[k] == asset_of(directory, entries[i]));
            } else {
                let i = entries.len() - 1;
                assert(is_video(entries[i]) && assets[k] == asset_of(directory, entries[i]));
            }
        }
    }
}

/// Tells whether `extension` is one of the supported ones, as it stands:
/// the caller folds the case.
pub fn is_supported_extension(extension: &str) -> (r: bool)
    ensures
        r == is_supported(extension@),
{
    let given = String::from_str(extension);
    given == String::from_str("mp4") || given == String::from_str("avi") || given
        == String::from_str("mkv") || given == String::from_str("mov") || given
        == String::from_str("webm") || given == String::from_str("flv") || given
        == String::from_str("wmv") || given == String::from_str("m4v") || given
        == String::from_str("3gp")
}

/// The supported extensions, in lower case and in the order in which they
/// are shown to the operator.
pub fn supported_extensions() -> (r: Vec<&'static str>)
    ensures
        r@.len() == 9,
        r@[0]@ == "mp4"@,
        r@[1]@ == "avi"@,
        r@[2]@ == "mkv"@,
        r@[3]@ == "mov"@,
        r@[4]@ == "webm"@,
        r@[5]@ == "flv"@,
        r@[6]@ == "wmv"@,
        r@[7]@ == "m4v"@,
        r@[8]@ == "3gp"@,
        forall|extension: Seq<char>|
            is_supported(extension) <==> exists|i: int|
                0 <= i < r@.len() && #[trigger] r@[i]@ == extension,
{
    let r = vec!["mp4", "avi", "mkv", "mov", "webm", "flv", "wmv", "m4v", "3gp"];
    proof {
        assert(r@[0]@ == "mp4"@);
        assert(r@[1]@ == "avi"@);
        assert(r@[2]@ == "mkv"@);
        assert(r@[3]@ == "mov"@);
        assert(r@[4]@ == "webm"@);
        assert(r@[5]@ == "flv"@);
        assert(r@[6]@ == "wmv"@);
        assert(r@[7]@ == "m4v"@);
        assert(r@[8]@ == "3gp"@);
    }
    r
}

fn last_dot_index(name: &str) -> (r: Option<usize>)
    ensures
        match r {
            Some(i) => last_dot(name@) == i as int && i < name@.len(),
            None => last_dot(name@) == -1,
        },
{
    let n: usize = name.unicode_len();
    let mut i: usize = n;
    assert(name@.take(n as int) =~= name@);
    while i > 0
        invariant
            i <= n,
            n == name@.len(),
            last_dot(name@) == last_dot(name@.take(i as int)),
        decreases i,
    {
        let c = name.get_char(i - 1);
        if c == '.' {
            return Some(i - 1);
        }
        assert(name@.take(i as int).drop_last() =~= name@.take(i - 1));
        i = i - 1;
    }
    None
}

/// Splits a file name into stem and extension. `None` where the name has no
/// extension.
pub fn split_name(name: &str) -> (r: Option<(String, String)>)
    ensures
        match r {
            Some((stem, extension)) => {
                &&& has_extension(name@)
                &&& stem@ == stem_of(name@)
                &&& extension@ == extension_of(name@)
            },
            None => !has_extension(name@),
        },
{
    let n: usize = name.unicode_len();
    match last_dot_index(name) {
        None => None,
        Some(dot) => {
            if dot == 0 {
                return None;
            }
            if n == 2 && name.get_char(0) == '.' {
                proof {
                    lemma_last_dot(name@);
                }
                assert(name@ =~= seq!['.', '.']);
                return None;
            }
            assert(name@ != seq!['.', '.']) by {
                if name@ == seq!['.', '.'] {
                    assert(name@.len() == 2);
                    assert(name@[0] == '.');
                }
            }
            let stem = String::from_str(name.substring_char(0, dot));
            let extension = String::from_str(name.substring_char(dot + 1, n));
            Some((stem, extension))
        },
    }
}

/// Folds the case of `raw` and tells whether the result is a supported
/// extension: `Some` of the folded extension where it is, `None` where it is
/// not.
pub fn served_extension(raw: &str) -> (r: Option<String>)
    ensures
        match r {
            Some(extension) => is_supported(lowercase_spec(raw@)) && extension@
                == lowercase_spec(raw@),
            None => !is_supported(lowercase_spec(raw@)),
        },
{
    if raw.is_ascii() {
        let names = supported_extensions();
        let mut i: usize = 0;
        while i < names.len()
            invariant
                i <= names@.len(),
                is_ascii_chars(raw@),
                forall|extension: Seq<char>|
                    is_supported(extension) <==> exists|k: int|
                        0 <= k < names@.len() && #[trigger] names@[k]@ == extension,
                forall|j: int| 0 <= j < i ==> ascii_lowercase(raw@) != (#[trigger] names@[j])@,
            decreases names.len() - i,
        {
            if folds_to(raw, names[i]) {
                assert(names@[i as int]@ == ascii_lowercase(raw@));
                return Some(String::from_str(names[i]));
            }
            i = i + 1;
        }
        None
    } else {
        let lowered = to_lowercase(raw);
        if is_supported_extension(lowered.as_str()) {
            Some(lowered)
        } else {
            None
        }
    }
}

/// Derives the asset of one directory entry, or `None` where the entry is
/// not served.
pub fn asset_for(directory: &str, entry: &DirEntry) -> (r: Option<SourceAsset>)
    ensures
        match r {
            Some(asset) => is_video(entry@) && asset@ == asset_of(directory@, entry@),
            None => !is_video(entry@),
        },
{
    if !entry.is_file {
        return None;
    }
    match split_name(entry.file_name.as_str()) {
        None => None,
        Some((stem, raw)) => match served_extension(raw.as_str()) {
            None => None,
            Some(extension) => {
                let file_path = join_path(directory, entry.file_name.as_str());
                Some(SourceAsset { file_path, stream_id: stem, extension })
            },
        },
    }
}

/// Scans the listing of `directory`. A missing directory is refused; of a
/// directory that exists, exactly the entries that are served give an
/// asset, in the order of the listing.
pub fn scan(directory: &str, listing: &Listing) -> (r: Result<Vec<SourceAsset>, ScanError>)
    ensures
        match r {
            Ok(assets) => match *listing {
                Listing::Entries(entries) => views(assets@) == assets_of(
                    directory@,
                    views(entries@),
                ),
                Listing::Missing => false,
            },
            Err(error) => *listing is Missing && error == ScanError::DirectoryMissing,
        },
{
    match listing {
        Listing::Missing => Err(ScanError::DirectoryMissing),
        Listing::Entries(entries) => {
            let mut assets: Vec<SourceAsset> = Vec::new();
            let mut i: usize = 0;
            assert(views(entries@).take(0) =~= Seq::<DirEntryView>::empty());
            assert(views(assets@) =~= Seq::<SourceAssetView>::empty());
            while i < entries.len()
                invariant
                    i <= entries.len(),
                    views(assets@) == assets_of(directory@, views(entries@).take(i as int)),
                decreases entries.len() - i,
            {
                let ghost before = views(assets@);
                let ghost seen = views(entries@).take(i + 1);
                assert(seen.drop_last() =~= views(entries@).take(i as int));
                assert(seen.last() == entries@[i as int]@);
                match asset_for(directory, &entries[i]) {
                    Some(asset) => {
                        assets.push(asset);
                        assert(views(assets@) =~= before.push(asset@));
                    },
                    None => {},
                }
                i = i + 1;
            }
            assert(views(entries@).take(i as int) =~= views(entries@));
            Ok(assets)
        },
    }
}

} // verus!
