use vstd::prelude::*;

verus! {

/// The newest mod package format this library knows.
pub const MXMOD_FORMAT_VERSION: u8 = 1;

/// What an installable file is, by its extension.
#[derive(Clone, Copy, Debug, PartialEq, Eq, Structural)]
pub enum InstallKind {
    /// A mod package: a zip archive with metadata, palettes and music.
    Mod,
    /// A colour palette, as JSON.
    Palette,
    /// A music pack: a zip archive.
    Music,
    /// Anything else.
    Unknown,
}

/// The kind that an extension names.
pub open spec fn kind_of(ext: Seq<char>) -> InstallKind {
    if ext == seq!['m', 'x', 'm', 'o', 'd'] {
        InstallKind::Mod
    } else if ext == seq!['m', 'x', 'p', 'a', 'l', 'e', 't', 't', 'e'] {
        InstallKind::Palette
    } else if ext == seq!['m', 'x', 'm', 'u', 's', 'i', 'c'] {
        InstallKind::Music
    } else {
        InstallKind::Unknown
    }
}

/// Classifies a file by the text after its last dot.
pub fn install_kind(ext: &str) -> (r: InstallKind)
    ensures
        r == kind_of(ext@),
{
    proof {
        reveal_strlit("mxmod");
        reveal_strlit("mxpalette");
        reveal_strlit("mxmusic");
    }
    let e = ext.to_owned();
    if e == "mxmod".to_owned() {
        assert("mxmod"@ =~= seq!['m', 'x', 'm', 'o', 'd']);
        InstallKind::Mod
    } else if e == "mxpalette".to_owned() {
        assert("mxpalette"@ =~= seq!['m', 'x', 'p', 'a', 'l', 'e', 't', 't', 'e']);
        InstallKind::Palette
    } else if e == "mxmusic".to_owned() {
        assert("mxmusic"@ =~= seq!['m', 'x', 'm', 'u', 's', 'i', 'c']);
        InstallKind::Music
    } else {
        assert("mxmod"@ =~= seq!['m', 'x', 'm', 'o', 'd']);
        assert("mxpalette"@ =~= seq!['m', 'x', 'p', 'a', 'l', 'e', 't', 't', 'e']);
        assert("mxmusic"@ =~= seq!['m', 'x', 'm', 'u', 's', 'i', 'c']);
        InstallKind::Unknown
    }
}

/// Whether a mod package of format `version` can be installed.
pub fn mod_version_supported(version: u8) -> (r: bool)
    ensures
        r == (version <= MXMOD_FORMAT_VERSION),
{
    version <= MXMOD_FORMAT_VERSION
}

/// The key for a new palette: one past the largest key in use; `None`
/// where no key is in use or the largest is already `u16::MAX`.
pub fn next_palette_key(keys: &[u16]) -> (r: Option<u16>)
    ensures
        match r {
            Some(k) => k > 0 && (exists|i: int| 0 <= i < keys@.len() && keys@[i] == k - 1) && forall|i: int|
                0 <= i < keys@.len() ==> keys@[i] < k,
            None => keys@.len() == 0 || exists|i: int| 0 <= i < keys@.len() && keys@[i] == u16::MAX,
        },
{
    if keys.len() == 0 {
        return None;
    }
    let mut best: u16 = keys[0];
    let mut at: usize = 0;
    let mut i: usize = 1;
    while i < keys.len()
        invariant
            1 <= i <= keys@.len(),
            at < i,
            keys@[at as int] == best,
            forall|j: int| 0 <= j < i ==> keys@[j] <= best,
        decreases keys@.len() - i,
    {
        if keys[i] > best {
            best = keys[i];
            at = i;
        }
        i += 1;
    }
    if best == u16::MAX {
        None
    } else {
        Some(best + 1)
    }
}

} // verus!
