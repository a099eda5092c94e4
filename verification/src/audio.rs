//! What the audio side of the game decides without touching a sound device:
//! which decoder a music file needs, and walking shared sample buffers.

use std::sync::Arc;

use vstd::prelude::*;

verus! {

/// An iterator over a `Vec` contained in an `Arc`.
#[derive(Debug)]
pub struct ArcIter<T: Copy> {
    inner: Arc<Vec<T>>,
    index: usize,
}

impl<T: Copy> ArcIter<T> {
    /// The items of the buffer.
    pub closed spec fn items(&self) -> Seq<T> {
        self.inner@
    }

    /// How many items were handed out so far.
    pub closed spec fn position(&self) -> nat {
        self.index as nat
    }

    /// The items that are still to come.
    pub open spec fn remaining(&self) -> Seq<T> {
        if self.position() <= self.items().len() {
            self.items().skip(self.position() as int)
        } else {
            Seq::empty()
        }
    }

    pub fn new(inner: Arc<Vec<T>>) -> (r: ArcIter<T>)
        ensures
            r.items() == inner@,
            r.position() == 0,
            r.remaining() == inner@,
    {
        let r = ArcIter { inner, index: 0 };
        assert(r.items().skip(0) =~= r.items());
        r
    }

    /// Gives the buffer back.
    pub fn inner(self) -> (r: Arc<Vec<T>>)
        ensures
            r@ == self.items(),
    {
        self.inner
    }

    /// The next item, if any is left.
    pub fn next(&mut self) -> (r: Option<T>)
        ensures
            final(self).items() == old(self).items(),
            match r {
                Some(x) => old(self).position() < old(self).items().len() && x == old(self).items()[old(
                    self,
                ).position() as int] && final(self).position() == old(self).position() + 1,
                None => old(self).position() >= old(self).items().len() && final(self).position()
                    == old(self).position(),
            },
            final(self).remaining() == (if old(self).remaining().len() > 0 {
                old(self).remaining().drop_first()
            } else {
                old(self).remaining()
            }),
    {
        if self.index < self.inner.len() {
            let n = self.inner[self.index];
            let ghost before = self.inner@.skip(self.index as int);
            self.index = self.index + 1;
            assert(self.inner@.skip(self.index as int) =~= before.drop_first());
            Some(n)
        } else {
            None
        }
    }
}

/// Contains information such as whether the audio thread is currently playing
/// music or not.
#[derive(Debug, Clone, Copy)]
pub struct AudioStatus {
    pub is_playing_music: bool,
}

/// `std::io::Error`, carried through as an opaque value.
#[verifier::external_type_specification]
#[verifier::external_body]
pub struct ExIoError(std::io::Error);

/// Why a music or sound file could not be loaded.
#[derive(Debug)]
pub enum AudioLoadError {
    Io(std::io::Error),
    Decode(String),
    UnsupportedFormat(String),
}

impl From<String> for AudioLoadError {
    fn from(s: String) -> (r: AudioLoadError) {
        AudioLoadError::Decode(s)
    }
}

impl vstd::std_specs::convert::FromSpecImpl<String> for AudioLoadError {
    open spec fn obeys_from_spec() -> bool {
        true
    }

    open spec fn from_spec(s: String) -> AudioLoadError {
        AudioLoadError::Decode(s)
    }
}

impl From<std::io::Error> for AudioLoadError {
    fn from(e: std::io::Error) -> (r: AudioLoadError) {
        AudioLoadError::Io(e)
    }
}

impl vstd::std_specs::convert::FromSpecImpl<std::io::Error> for AudioLoadError {
    open spec fn obeys_from_spec() -> bool {
        true
    }

    open spec fn from_spec(e: std::io::Error) -> AudioLoadError {
        AudioLoadError::Io(e)
    }
}

/// The audio formats music can be decoded from.
#[derive(Copy, Clone, Debug, Eq, PartialEq, Hash, Structural)]
pub enum MusicFormat {
    Mp3,
    Ogg,
    Wav,
}

/// The name of a format, as written in file extensions.
pub open spec fn format_name(f: MusicFormat) -> Seq<char> {
    match f {
        MusicFormat::Mp3 => seq!['m', 'p', '3'],
        MusicFormat::Ogg => seq!['o', 'g', 'g'],
        MusicFormat::Wav => seq!['w', 'a', 'v'],
    }
}

impl MusicFormat {
    /// The name of the format, as written in file extensions.
    pub fn name(self) -> (r: String)
        ensures
            r@ == format_name(self),
    {
        let s = match self {
            MusicFormat::Mp3 => {
                proof {
                    reveal_strlit("mp3");
                }
                "mp3".to_owned()
            },
            MusicFormat::Ogg => {
                proof {
                    reveal_strlit("ogg");
                }
                "ogg".to_owned()
            },
            MusicFormat::Wav => {
                proof {
                    reveal_strlit("wav");
                }
                "wav".to_owned()
            },
        };
        assert(s@ =~= format_name(self));
        s
    }
}

/// The Unicode lower case of a text, as `str::to_lowercase` computes it.
pub uninterp spec fn lowercase_of(s: Seq<char>) -> Seq<char>;

/// Calls `str::to_lowercase`. The contract claims only that the result is
/// `lowercase_of` the text: a function of the text alone (Unicode lower
/// casing does not depend on the locale). What that lower case is, is left
/// unsaid.
#[verifier::external_body]
fn lowercase(s: &str) -> (r: String)
    ensures
        r@ == lowercase_of(s@),
{
    s.to_lowercase()
}

/// The message for a file without an extension.
pub open spec fn no_extension_message() -> Seq<char> {
    seq!['N', 'o', ' ', 'e', 'x', 't', 'e', 'n', 's', 'i', 'o', 'n']
}

/// The format a music file is decoded as, by the lower-cased extension of its
/// name.
pub open spec fn format_for_lowercase(ext: Seq<char>) -> Option<MusicFormat> {
    if ext == format_name(MusicFormat::Mp3) {
        Some(MusicFormat::Mp3)
    } else if ext == format_name(MusicFormat::Wav) {
        Some(MusicFormat::Wav)
    } else if ext == format_name(MusicFormat::Ogg) {
        Some(MusicFormat::Ogg)
    } else {
        None
    }
}

/// Picks the decoder for a music file by its lower-cased extension:
/// `UnsupportedFormat` names the lower-cased extension, or says there is none.
pub fn format_of_lowercase(ext: Option<String>) -> (r: Result<MusicFormat, AudioLoadError>)
    ensures
        match ext {
            None => r matches Err(AudioLoadError::UnsupportedFormat(m)) && m@ == no_extension_message(),
            Some(e) => match format_for_lowercase(e@) {
                Some(f) => r matches Ok(g) && g == f,
                None => r matches Err(AudioLoadError::UnsupportedFormat(m)) && m@ == e@,
            },
        },
{
    match ext {
        None => {
            proof {
                reveal_strlit("No extension");
            }
            let m = "No extension".to_owned();
            assert(m@ =~= no_extension_message());
            Err(AudioLoadError::UnsupportedFormat(m))
        },
        Some(e) => {
            if e == MusicFormat::Mp3.name() {
                Ok(MusicFormat::Mp3)
            } else if e == MusicFormat::Wav.name() {
                Ok(MusicFormat::Wav)
            } else if e == MusicFormat::Ogg.name() {
                Ok(MusicFormat::Ogg)
            } else {
                Err(AudioLoadError::UnsupportedFormat(e))
            }
        },
    }
}

/// Picks the decoder for a music file by the extension of its name, compared
/// without regard to case.
pub fn format_of_extension(ext: Option<&str>) -> (r: Result<MusicFormat, AudioLoadError>)
    ensures
        match ext {
            None => r matches Err(AudioLoadError::UnsupportedFormat(m)) && m@ == no_extension_message(),
            Some(e) => match format_for_lowercase(lowercase_of(e@)) {
                Some(f) => r matches Ok(g) && g == f,
                None => r matches Err(AudioLoadError::UnsupportedFormat(m)) && m@ == lowercase_of(e@),
            },
        },
{
    match ext {
        None => format_of_lowercase(None),
        Some(e) => format_of_lowercase(Some(lowercase(e))),
    }
}

/// Each format's name is read back as that format.
pub proof fn lemma_format_name_roundtrip(f: MusicFormat)
    ensures
        format_for_lowercase(format_name(f)) == Some(f),
{
    let mp3 = format_name(MusicFormat::Mp3);
    let wav = format_name(MusicFormat::Wav);
    let ogg = format_name(MusicFormat::Ogg);
    assert(mp3[0] != wav[0] && mp3[0] != ogg[0] && wav[0] != ogg[0]);
}

} // verus!
