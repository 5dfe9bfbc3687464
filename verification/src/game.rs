//! The games this launcher knows about, and where each one lives.

use vstd::prelude::*;

use crate::dirs::Dirs;
use crate::error::TagError;
use crate::path;
use crate::path::join;
use crate::text::{chars_of, joined, same, text_of};

verus! {

broadcast use vstd::string::group_string_axioms;

/// A repository on GitHub.
#[derive(Debug, PartialEq, Eq)]
pub struct RepositoryName {
    pub owner: String,
    pub name: String,
}

impl RepositoryName {
    /// The repository `owner` keeps under `name`.
    pub fn new(owner: &str, name: &str) -> (r: RepositoryName)
        ensures
            r.owner@ == owner@,
            r.name@ == name@,
    {
        RepositoryName { owner: owner.to_owned(), name: name.to_owned() }
    }

    /// How a repository is written: `owner/name`.
    pub open spec fn slug(self) -> Seq<char> {
        self.owner@ + "/"@ + self.name@
    }

    /// The repository as `owner/name`.
    pub fn display(&self) -> (out: String)
        ensures
            out@ == self.slug(),
    {
        joined(joined(self.owner.as_str(), "/").as_str(), self.name.as_str())
    }
}

/// The games this launcher knows about. Everything else about a game derives from
/// this, so there is no way to name one that does not exist.
#[derive(Debug, Clone, Copy, PartialEq, Eq, Hash, Structural)]
pub enum GameId {
    OpenRCT2,
    OpenLoco,
}

impl GameId {
    pub const ALL: [GameId; 2] = [GameId::OpenRCT2, GameId::OpenLoco];

    /// What a game is called.
    pub open spec fn title(self) -> Seq<char> {
        match self {
            GameId::OpenRCT2 => "OpenRCT2"@,
            GameId::OpenLoco => "OpenLoco"@,
        }
    }

    /// Also the on-disk directory name and the `.app` bundle name. The compatibility
    /// contract depends on this exact spelling.
    pub fn display_name(self) -> (r: &'static str)
        ensures
            r@ == self.title(),
    {
        match self {
            GameId::OpenRCT2 => "OpenRCT2",
            GameId::OpenLoco => "OpenLoco",
        }
    }

    /// Stable identifier for preferences. Persisting this instead of an index means
    /// adding or reordering games cannot silently change a user's saved selection.
    pub fn key(self) -> (r: &'static str)
        ensures
            r@ == self.title(),
    {
        self.display_name()
    }

    /// The game a stable identifier stands for.
    pub fn from_key(key: &str) -> (r: Option<GameId>)
        ensures
            key@ == GameId::OpenRCT2.title() <==> r == Some(GameId::OpenRCT2),
            key@ == GameId::OpenLoco.title() <==> r == Some(GameId::OpenLoco),
    {
        proof {
            reveal_strlit("OpenRCT2");
            reveal_strlit("OpenLoco");
            assert("OpenRCT2"@[4] == 'R' && "OpenLoco"@[4] == 'L');
        }
        if same(key, GameId::OpenRCT2.key()) {
            Some(GameId::OpenRCT2)
        } else if same(key, GameId::OpenLoco.key()) {
            Some(GameId::OpenLoco)
        } else {
            None
        }
    }

    /// This game's position in `ALL`, so a caller can hold one value per game in a
    /// plain array. Never persisted: an index changes meaning when the list is
    /// reordered.
    pub fn index(self) -> (i: usize)
        ensures
            i == self.place(),
            i < 2,
    {
        match self {
            GameId::OpenRCT2 => 0,
            GameId::OpenLoco => 1,
        }
    }

    /// This game's position among all games.
    pub open spec fn place(self) -> int {
        match self {
            GameId::OpenRCT2 => 0,
            GameId::OpenLoco => 1,
        }
    }

    /// Where the game's releases are published.
    pub fn release_repo(self) -> (r: RepositoryName)
        ensures
            r.owner@ == self.title(),
            r.name@ == self.title(),
    {
        match self {
            GameId::OpenRCT2 => RepositoryName::new("OpenRCT2", "OpenRCT2"),
            GameId::OpenLoco => RepositoryName::new("OpenLoco", "OpenLoco"),
        }
    }

    /// Where the game's development builds are published, if they are.
    pub fn develop_repo(self) -> (r: Option<RepositoryName>)
        ensures
            r is Some <==> self == GameId::OpenRCT2,
            r matches Some(repo) ==> repo.owner@ == "OpenRCT2"@ && repo.name@
                == "OpenRCT2-binaries"@,
    {
        match self {
            GameId::OpenRCT2 => Some(RepositoryName::new("OpenRCT2", "OpenRCT2-binaries")),
            GameId::OpenLoco => None,
        }
    }

    /// The game's directory.
    pub open spec fn game_dir(self, dirs: Seq<char>) -> Seq<char> {
        path::under(dirs, self.title())
    }

    /// Where the installation in use is.
    pub open spec fn bin_dir(self, dirs: Seq<char>) -> Seq<char> {
        path::under(self.game_dir(dirs), "bin"@)
    }

    /// Where installations are kept side by side.
    pub open spec fn versions_dir(self, dirs: Seq<char>) -> Seq<char> {
        path::under(self.game_dir(dirs), "versions"@)
    }

    /// The game's own directory.
    pub fn game_path(self, dirs: &Dirs) -> (out: String)
        ensures
            out@ == self.game_dir(dirs@),
    {
        join(dirs.app_support.as_str(), self.display_name())
    }

    /// Where the installation in use is.
    pub fn bin_path(self, dirs: &Dirs) -> (out: String)
        ensures
            out@ == self.bin_dir(dirs@),
    {
        join(self.game_path(dirs).as_str(), "bin")
    }

    /// Where installations are kept side by side.
    pub fn versions_path(self, dirs: &Dirs) -> (out: String)
        ensures
            out@ == self.versions_dir(dirs@),
    {
        join(self.game_path(dirs).as_str(), "versions")
    }

    /// Where one of the installations kept side by side is. `tag` must already have
    /// passed `sanitize_tag`.
    pub fn version_path(self, dirs: &Dirs, tag: &str) -> (out: String)
        ensures
            out@ == path::under(self.versions_dir(dirs@), tag@),
    {
        join(self.versions_path(dirs).as_str(), tag)
    }

    /// The executable of an installation.
    pub open spec fn executable(self, dir: Seq<char>) -> Seq<char> {
        path::under(
            path::under(path::under(dir, self.title() + ".app"@), "Contents/MacOS"@),
            self.title(),
        )
    }

    /// The executable of the installation in `dir`.
    pub fn executable_in(self, dir: &str) -> (out: String)
        ensures
            out@ == self.executable(dir@),
    {
        let name: &'static str = self.display_name();
        let bundle: String = join(dir, joined(name, ".app").as_str());
        join(join(bundle.as_str(), "Contents/MacOS").as_str(), name)
    }
}

/// The file that says which version the installation in `dir` is.
pub fn version_file_in(dir: &str) -> (out: String)
    ensures
        out@ == path::under(dir@, ".version"@),
{
    join(dir, ".version")
}

/// The characters a directory name is made of.
pub open spec fn is_safe(c: char) -> bool {
    ||| '0' <= c <= '9'
    ||| 'A' <= c <= 'Z'
    ||| 'a' <= c <= 'z'
    ||| c == '.'
    ||| c == '_'
    ||| c == '-'
}

/// A tag with a dash for every character that has no place in a directory name.
pub open spec fn cleaned(tag: Seq<char>) -> Seq<char> {
    Seq::new(
        tag.len(),
        |i: int|
            if is_safe(tag[i]) {
                tag[i]
            } else {
                '-'
            },
    )
}

/// The directory name for a tag: its safe characters, and no dot in front.
pub open spec fn directory_name(tag: Seq<char>) -> Result<Seq<char>, TagError> {
    let clean = cleaned(tag);
    if tag.len() == 0 {
        Err(TagError::Empty)
    } else if clean == seq!['.'] || clean == seq!['.', '.'] {
        Err(TagError::Reserved)
    } else if clean[0] == '.' {
        Ok(clean.update(0, '-'))
    } else {
        Ok(clean)
    }
}

/// Release tags become directory names, and a tag is remote input, so it has no
/// business escaping `versions/`. A leading dot is reserved for staging, trash and
/// marker files, and gives way to a dash.
pub fn sanitize_tag(tag: &str) -> (r: Result<String, TagError>)
    ensures
        r matches Ok(name) ==> directory_name(tag@) == Ok::<Seq<char>, TagError>(name@),
        r matches Err(e) ==> directory_name(tag@) == Err::<Seq<char>, TagError>(e),
{
    let mut s: Vec<char> = chars_of(tag);
    if s.len() == 0 {
        return Err(TagError::Empty);
    }
    let mut i: usize = 0;
    while i < s.len()
        invariant
            i <= s.len(),
            s@.len() == tag@.len(),
            forall|j: int| 0 <= j < i ==> s@[j] == cleaned(tag@)[j],
            forall|j: int| i <= j < s@.len() ==> s@[j] == tag@[j],
        decreases s.len() - i,
    {
        let c: char = s[i];
        let safe: bool = ('0' <= c && c <= '9') || ('A' <= c && c <= 'Z') || ('a' <= c && c
            <= 'z') || c == '.' || c == '_' || c == '-';
        if !safe {
            s.set(i, '-');
        }
        i += 1;
    }
    assert(s@ =~= cleaned(tag@));
    if s.len() == 1 && s[0] == '.' {
        assert(s@ =~= seq!['.']);
        return Err(TagError::Reserved);
    }
    if s.len() == 2 && s[0] == '.' && s[1] == '.' {
        assert(s@ =~= seq!['.', '.']);
        return Err(TagError::Reserved);
    }
    if s[0] == '.' {
        s.set(0, '-');
    }
    Ok(text_of(&s))
}

/// A tag that is accepted becomes one ordinary directory name that nothing else
/// uses: it has no separator, it is neither `.` nor `..`, and it does not begin with
/// a dot.
pub proof fn directory_names_are_plain(tag: Seq<char>)
    ensures
        directory_name(tag) matches Ok(name) ==> path::is_plain(name) && name[0] != '.'
            && forall|i: int| 0 <= i < name.len() ==> is_safe(#[trigger] name[i]),
{
    if directory_name(tag) is Ok {
        let name = directory_name(tag)->Ok_0;
        assert(cleaned(tag).len() == tag.len());
        assert forall|i: int| 0 <= i < name.len() implies is_safe(#[trigger] name[i]) by {}
        assert(name[0] != '.');
        assert(!name.contains('/')) by {
            if name.contains('/') {
                let i = choose|i: int| 0 <= i < name.len() && name[i] == '/';
                assert(is_safe(name[i]));
            }
        }
        assert(seq!['.'][0] == '.' && seq!['.', '.'][0] == '.');
    }
}

/// A directory name needs no cleaning: made into one again, it stays the same.
pub proof fn directory_names_are_stable(tag: Seq<char>)
    ensures
        directory_name(tag) matches Ok(name) ==> directory_name(name) == Ok::<Seq<char>, TagError>(
            name,
        ),
{
    directory_names_are_plain(tag);
    if directory_name(tag) is Ok {
        let name = directory_name(tag)->Ok_0;
        assert(cleaned(name) =~= name);
        assert(seq!['.'][0] == '.' && seq!['.', '.'][0] == '.');
    }
}

/// The games' names, and the directories that go by them.
pub proof fn games_have_their_own_places(dirs: Seq<char>)
    ensures
        GameId::OpenRCT2.title() == "OpenRCT2"@,
        GameId::OpenLoco.title() == "OpenLoco"@,
        GameId::OpenRCT2.place() == 0,
        GameId::OpenLoco.place() == 1,
        GameId::OpenRCT2.game_dir(dirs) == path::under(dirs, "OpenRCT2"@),
        GameId::OpenLoco.game_dir(dirs) == path::under(dirs, "OpenLoco"@),
        GameId::OpenRCT2.bin_dir(dirs) == path::under(path::under(dirs, "OpenRCT2"@), "bin"@),
        GameId::OpenLoco.bin_dir(dirs) == path::under(path::under(dirs, "OpenLoco"@), "bin"@),
        GameId::OpenRCT2.versions_dir(dirs) == path::under(
            path::under(dirs, "OpenRCT2"@),
            "versions"@,
        ),
        GameId::OpenLoco.versions_dir(dirs) == path::under(
            path::under(dirs, "OpenLoco"@),
            "versions"@,
        ),
{
}

/// A tag's directory is named as the tag, sign by sign: what is not a letter, a digit, a
/// dot, an underscore or a hyphen becomes a hyphen, and so does a dot in front. No tag, and
/// the tags that would name the directory itself or the one above it, are refused.
pub proof fn tags_name_their_directory(tag: Seq<char>, i: int)
    ensures
        tag.len() == 0 ==> directory_name(tag) == Err::<Seq<char>, TagError>(TagError::Empty),
        tag == seq!['.'] || tag == seq!['.', '.'] ==> directory_name(tag) == Err::<
            Seq<char>,
            TagError,
        >(TagError::Reserved),
        tag.len() > 0 && tag != seq!['.'] && tag != seq!['.', '.'] ==> directory_name(tag) is Ok
            && directory_name(tag)->Ok_0.len() == tag.len(),
        directory_name(tag) is Ok && 0 <= i < tag.len() ==> directory_name(tag)->Ok_0[i]
            == if i == 0 && tag[0] == '.' {
            '-'
        } else if '0' <= tag[i] <= '9' || 'A' <= tag[i] <= 'Z' || 'a' <= tag[i] <= 'z' || tag[i]
            == '.' || tag[i] == '_' || tag[i] == '-' {
            tag[i]
        } else {
            '-'
        },
{
    let clean = cleaned(tag);
    if tag == seq!['.'] {
        assert(clean =~= seq!['.']);
    }
    if tag == seq!['.', '.'] {
        assert(clean =~= seq!['.', '.']);
    }
    if clean == seq!['.'] {
        assert(clean[0] == '.');
        assert(tag =~= seq!['.']);
    }
    if clean == seq!['.', '.'] {
        assert(clean[0] == '.' && clean[1] == '.');
        assert(tag =~= seq!['.', '.']);
    }
}

} // verus!
