//! The effect bank: the clips of an effect package, by name.

use crate::sonolus::EffectData;
use crate::sound::Sound;
use crate::text::same_text;
use std::io::Read;
use vstd::prelude::*;

verus! {

/// `zip::ZipArchive`: an archive that was opened for reading. What is
/// inside is known only through [`zip_entries`].
#[verifier::external_type_specification]
#[verifier::external_body]
#[verifier::reject_recursive_types(R)]
pub struct ExZipArchive<R>(zip::ZipArchive<R>);

/// `std::io::Cursor`: the reader over bytes in memory that an archive is
/// opened on. Nothing is claimed of it.
#[verifier::external_type_specification]
#[verifier::external_body]
#[verifier::reject_recursive_types(T)]
pub struct ExCursor<T>(std::io::Cursor<T>);

/// What an archive gives for each name when it is asked without a
/// password: an entry for every name under which it opens a file, holding
/// the bytes of that file read to its end, or nothing where reading it
/// fails. A name has no entry where the archive holds no file of that name,
/// and where it holds one that it does not open: one stored by a method it
/// does not know, or locked by a password that is not the empty one.
pub uninterp spec fn zip_entries(archive: zip::ZipArchive<std::io::Cursor<Vec<u8>>>) -> Map<
    Seq<char>,
    Option<Seq<u8>>,
>;

/// Why a clip could not be taken from the archive of its package. `clip` is
/// the position of the clip in the package's list.
#[derive(Clone, Copy, Debug)]
pub enum EffectError {
    /// The archive opens nothing under the clip's file name: it holds no
    /// file of that name, or holds one that it cannot open.
    FileNotFound { clip: usize },
    /// The archive opens the file, but reading it to its end fails.
    FileUnreadable { clip: usize },
}

impl EffectError {
    /// The error in words.
    pub fn message(&self) -> (text: &'static str)
        ensures
            text == match self {
                EffectError::FileNotFound { .. } => "効果音のファイルが見つかりませんでした",
                EffectError::FileUnreadable { .. } => "効果音のファイルが読み込めませんでした",
            },
    {
        match self {
            EffectError::FileNotFound { .. } => "効果音のファイルが見つかりませんでした",
            EffectError::FileUnreadable { .. } => "効果音のファイルが読み込めませんでした",
        }
    }
}

/// How reading one file of an archive failed.
enum EntryError {
    /// The archive opened nothing under the name.
    Missing,
    /// The archive opened the file, and reading it failed.
    Unreadable,
}

/// Reads one file out of an archive: `zip::ZipArchive::by_name_decrypt`
/// with the empty password, then `read_to_end` on the file it opens. That
/// call hands back every refusal as a value, also the one of a file that
/// would need a password. The contract claims that the archive gives the
/// same for the same name whenever it is asked ([`zip_entries`] does not
/// change), and tells the two ways to fail apart: the archive opening
/// nothing, for whatever reason, and the read failing.
#[verifier::external_body]
fn read_entry(archive: &mut zip::ZipArchive<std::io::Cursor<Vec<u8>>>, name: &str) -> (read: Result<
    Vec<u8>,
    EntryError,
>)
    ensures
        zip_entries(*final(archive)) == zip_entries(*old(archive)),
        match read {
            Ok(bytes) => {
                &&& zip_entries(*old(archive)).contains_key(name@)
                &&& zip_entries(*old(archive))[name@] == Some(bytes@)
            },
            Err(EntryError::Missing) => !zip_entries(*old(archive)).contains_key(name@),
            Err(EntryError::Unreadable) => {
                &&& zip_entries(*old(archive)).contains_key(name@)
                &&& zip_entries(*old(archive))[name@] is None
            },
        },
{
    let mut file = match archive.by_name_decrypt(name, &[]) {
        Ok(Ok(file)) => file,
        Ok(Err(_)) => return Err(EntryError::Missing),
        Err(_) => return Err(EntryError::Missing),
    };
    let mut bytes = Vec::new();
    match file.read_to_end(&mut bytes) {
        Ok(_) => Ok(bytes),
        Err(_) => Err(EntryError::Unreadable),
    }
}

/// The clips of an effect package, decoded, by name.
#[derive(Debug)]
pub struct Effect {
    /// Names and clips in the order of the package. Where a name stands
    /// twice, the later clip is the one that counts.
    pub audio: Vec<(String, Sound)>,
}

/// Index of the last of the first `count` clips that goes by `name`.
pub open spec fn last_named(audio: Seq<(String, Sound)>, name: Seq<char>, count: nat) -> Option<int>
    decreases count,
{
    if count == 0 {
        None
    } else if audio[count - 1].0@ == name {
        Some(count - 1)
    } else {
        last_named(audio, name, (count - 1) as nat)
    }
}

/// Whether the first `count` files are what the archive gives for the first
/// `count` clips.
pub open spec fn files_match(
    files: Seq<Vec<u8>>,
    data: EffectData,
    entries: Map<Seq<char>, Option<Seq<u8>>>,
    count: int,
) -> bool {
    forall|i: int|
        0 <= i < count ==> {
            &&& entries.contains_key(#[trigger] data.clips@[i].filename@)
            &&& entries[data.clips@[i].filename@] == Some(files[i]@)
        }
}

impl Effect {
    /// Position of the clip that `name` stands for, if the bank has one.
    pub open spec fn find(&self, name: Seq<char>) -> Option<int> {
        last_named(self.audio@, name, self.audio@.len())
    }

    /// Takes the encoded files of a package's clips out of its archive, in
    /// the order of the package's list. Fails at the first clip whose file
    /// the archive does not give: one it opens nothing for, or one it cannot
    /// read to its end.
    pub fn clip_files(data: &EffectData, archive: &mut zip::ZipArchive<std::io::Cursor<Vec<u8>>>) -> (taken:
        Result<Vec<Vec<u8>>, EffectError>)
        ensures
            zip_entries(*final(archive)) == zip_entries(*old(archive)),
            match taken {
                Ok(files) => {
                    &&& files@.len() == data.clips@.len()
                    &&& files_match(files@, *data, zip_entries(*old(archive)), files@.len() as int)
                },
                Err(EffectError::FileNotFound { clip }) => {
                    &&& clip < data.clips@.len()
                    &&& !zip_entries(*old(archive)).contains_key(data.clips@[clip as int].filename@)
                    &&& forall|i: int|
                        0 <= i < clip ==> {
                            &&& zip_entries(*old(archive)).contains_key(
                                #[trigger] data.clips@[i].filename@,
                            )
                            &&& zip_entries(*old(archive))[data.clips@[i].filename@] is Some
                        }
                },
                Err(EffectError::FileUnreadable { clip }) => {
                    &&& clip < data.clips@.len()
                    &&& zip_entries(*old(archive)).contains_key(data.clips@[clip as int].filename@)
                    &&& zip_entries(*old(archive))[data.clips@[clip as int].filename@] is None
                    &&& forall|i: int|
                        0 <= i < clip ==> {
                            &&& zip_entries(*old(archive)).contains_key(
                                #[trigger] data.clips@[i].filename@,
                            )
                            &&& zip_entries(*old(archive))[data.clips@[i].filename@] is Some
                        }
                },
            },
    {
        let mut files: Vec<Vec<u8>> = Vec::new();
        let mut i: usize = 0;
        while i < data.clips.len()
            invariant
                i <= data.clips@.len(),
                files@.len() == i,
                zip_entries(*archive) == zip_entries(*old(archive)),
                files_match(files@, *data, zip_entries(*old(archive)), i as int),
            decreases data.clips@.len() - i,
        {
            let ghost before = files@;
            match read_entry(archive, data.clips[i].filename.as_str()) {
                Ok(bytes) => {
                    files.push(bytes);
                },
                Err(EntryError::Missing) => {
                    return Err(EffectError::FileNotFound { clip: i });
                },
                Err(EntryError::Unreadable) => {
                    return Err(EffectError::FileUnreadable { clip: i });
                },
            }
            proof {
                assert forall|k: int| 0 <= k < i + 1 implies {
                    &&& zip_entries(*old(archive)).contains_key(#[trigger] data.clips@[k].filename@)
                    &&& zip_entries(*old(archive))[data.clips@[k].filename@] == Some(files@[k]@)
                } by {
                    if k < i {
                        assert(files@[k] == before[k]);
                    }
                }
            }
            i = i + 1;
        }
        Ok(files)
    }

    /// Makes the bank of a package from its list of clips and the decoded
    /// clips, in the same order. `None` where the two do not have the same
    /// length.
    pub fn new(data: &EffectData, sounds: Vec<Sound>) -> (bank: Option<Effect>)
        ensures
            bank is Some <==> sounds@.len() == data.clips@.len(),
            bank matches Some(effect) ==> {
                &&& effect.audio@.len() == sounds@.len()
                &&& forall|i: int|
                    0 <= i < sounds@.len() ==> {
                        &&& (#[trigger] effect.audio@[i]).0@ == data.clips@[i].name@
                        &&& effect.audio@[i].1 == sounds@[i]
                    }
            },
    {
        if sounds.len() != data.clips.len() {
            return None;
        }
        let ghost all = sounds@;
        let mut rest = sounds;
        let mut reversed: Vec<(String, Sound)> = Vec::new();
        while rest.len() > 0
            invariant
                all.len() == data.clips@.len(),
                rest@.len() <= all.len(),
                rest@ == all.subrange(0, rest@.len() as int),
                reversed@.len() == all.len() - rest@.len(),
                forall|k: int|
                    0 <= k < reversed@.len() ==> {
                        &&& (#[trigger] reversed@[k]).0@ == data.clips@[all.len() - 1 - k].name@
                        &&& reversed@[k].1 == all[all.len() - 1 - k]
                    },
            decreases rest@.len(),
        {
            let at = rest.len() - 1;
            let ghost before = reversed@;
            match rest.pop() {
                Some(sound) => {
                    reversed.push((data.clips[at].name.clone(), sound));
                },
                None => {},
            }
            proof {
                assert(rest@ =~= all.subrange(0, at as int));
                assert forall|k: int| 0 <= k < reversed@.len() implies {
                    &&& (#[trigger] reversed@[k]).0@ == data.clips@[all.len() - 1 - k].name@
                    &&& reversed@[k].1 == all[all.len() - 1 - k]
                } by {
                    if k < before.len() {
                        assert(reversed@[k] == before[k]);
                    }
                }
            }
        }
        let ghost turned = reversed@;
        let mut audio: Vec<(String, Sound)> = Vec::new();
        while reversed.len() > 0
            invariant
                reversed@.len() <= turned.len(),
                reversed@ == turned.subrange(0, reversed@.len() as int),
                audio@.len() == turned.len() - reversed@.len(),
                forall|k: int| 0 <= k < audio@.len() ==> #[trigger] audio@[k] == turned[turned.len() - 1 - k],
            decreases reversed@.len(),
        {
            let ghost before = audio@;
            let ghost at = reversed@.len() - 1;
            match reversed.pop() {
                Some(pair) => {
                    audio.push(pair);
                },
                None => {},
            }
            proof {
                assert(reversed@ =~= turned.subrange(0, at));
                assert forall|k: int| 0 <= k < audio@.len() implies #[trigger] audio@[k] == turned[turned.len()
                    - 1 - k] by {
                    if k < before.len() {
                        assert(audio@[k] == before[k]);
                    }
                }
            }
        }
        Some(Effect { audio })
    }

    /// Looks up the clip that `name` stands for.
    pub fn get(&self, name: &str) -> (clip: Option<&Sound>)
        ensures
            match clip {
                Some(sound) => self.find(name@) matches Some(i) && *sound == self.audio@[i].1 && 0 <= i
                    < self.audio@.len(),
                None => self.find(name@) is None,
            },
    {
        let mut count: usize = self.audio.len();
        while count > 0
            invariant
                count <= self.audio@.len(),
                self.find(name@) == last_named(self.audio@, name@, count as nat),
            decreases count,
        {
            if same_text(self.audio[count - 1].0.as_str(), name) {
                return Some(&self.audio[count - 1].1);
            }
            count = count - 1;
        }
        None
    }
}

} // verus!
