//! The table of the nine categories, and the names of their entries in an
//! archive.

use crate::layout::{info_path, package_path, repository_prefix, root};
use crate::text::{
    has_no_slash, join, lemma_concat_cancel, lemma_no_slash_is_no_path, lemma_split_at_slash,
};
use vstd::prelude::*;

verus! {

/// The nine kinds of content that a pack holds.
#[derive(Clone, Copy, Debug, PartialEq, Eq, Structural)]
pub enum Category {
    Skins,
    Backgrounds,
    Effects,
    Particles,
    Engines,
    Levels,
    Replays,
    Playlists,
    Posts,
}

/// The categories in the order in which an archive lists them.
pub open spec fn categories() -> Seq<Category> {
    seq![
        Category::Skins,
        Category::Backgrounds,
        Category::Effects,
        Category::Particles,
        Category::Engines,
        Category::Levels,
        Category::Replays,
        Category::Playlists,
        Category::Posts,
    ]
}

impl Category {
    /// The plural name: the key of the collection in a manifest and the
    /// directory of the category in an archive.
    pub open spec fn spec_key(self) -> Seq<char> {
        match self {
            Category::Skins => "skins"@,
            Category::Backgrounds => "backgrounds"@,
            Category::Effects => "effects"@,
            Category::Particles => "particles"@,
            Category::Engines => "engines"@,
            Category::Levels => "levels"@,
            Category::Replays => "replays"@,
            Category::Playlists => "playlists"@,
            Category::Posts => "posts"@,
        }
    }

    /// The singular name, by which a detail document names the type of its
    /// items.
    pub open spec fn spec_item_type(self) -> Seq<char> {
        match self {
            Category::Skins => "skin"@,
            Category::Backgrounds => "background"@,
            Category::Effects => "effect"@,
            Category::Particles => "particle"@,
            Category::Engines => "engine"@,
            Category::Levels => "level"@,
            Category::Replays => "replay"@,
            Category::Playlists => "playlist"@,
            Category::Posts => "post"@,
        }
    }

    /// The directory of the category in an archive, with its closing slash.
    pub open spec fn spec_prefix(self) -> Seq<char> {
        root() + self.spec_key() + "/"@
    }

    /// The place of the category's list document in an archive.
    pub open spec fn spec_list_path(self) -> Seq<char> {
        self.spec_prefix() + "list"@
    }

    /// The place of the category's info document in an archive.
    pub open spec fn spec_info_path(self) -> Seq<char> {
        self.spec_prefix() + "info"@
    }

    /// The place of the detail document of the item `name` in an archive.
    pub open spec fn spec_item_path(self, name: Seq<char>) -> Seq<char> {
        self.spec_prefix() + name
    }

    /// The plural name of the category.
    pub fn key(self) -> (r: &'static str)
        ensures
            r@ == self.spec_key(),
    {
        match self {
            Category::Skins => "skins",
            Category::Backgrounds => "backgrounds",
            Category::Effects => "effects",
            Category::Particles => "particles",
            Category::Engines => "engines",
            Category::Levels => "levels",
            Category::Replays => "replays",
            Category::Playlists => "playlists",
            Category::Posts => "posts",
        }
    }

    /// The singular name of the category.
    pub fn item_type(self) -> (r: &'static str)
        ensures
            r@ == self.spec_item_type(),
    {
        match self {
            Category::Skins => "skin",
            Category::Backgrounds => "background",
            Category::Effects => "effect",
            Category::Particles => "particle",
            Category::Engines => "engine",
            Category::Levels => "level",
            Category::Replays => "replay",
            Category::Playlists => "playlist",
            Category::Posts => "post",
        }
    }

    /// The nine categories in the order of `categories`.
    pub fn all() -> (r: Vec<Category>)
        ensures
            r@ == categories(),
    {
        let r = vec![
            Category::Skins,
            Category::Backgrounds,
            Category::Effects,
            Category::Particles,
            Category::Engines,
            Category::Levels,
            Category::Replays,
            Category::Playlists,
            Category::Posts,
        ];
        assert(r@ =~= categories());
        r
    }

    /// The directory of the category in an archive, with its closing slash.
    pub fn prefix(self) -> (r: String)
        ensures
            r@ == self.spec_prefix(),
    {
        let dir = join("static/sonolus/", self.key());
        join(dir.as_str(), "/")
    }

    /// The place of the category's list document in an archive.
    pub fn list_path(self) -> (r: String)
        ensures
            r@ == self.spec_list_path(),
    {
        join(self.prefix().as_str(), "list")
    }

    /// The place of the category's info document in an archive.
    pub fn info_path(self) -> (r: String)
        ensures
            r@ == self.spec_info_path(),
    {
        join(self.prefix().as_str(), "info")
    }

    /// The place of the detail document of the item `name` in an archive.
    pub fn item_path(self, name: &str) -> (r: String)
        ensures
            r@ == self.spec_item_path(name@),
    {
        join(self.prefix().as_str(), name)
    }
}

/// No two categories share a key, and none is keyed `info`.
pub proof fn lemma_keys_distinct(a: Category, b: Category)
    ensures
        a != b ==> a.spec_key() != b.spec_key(),
        a.spec_key() != "info"@,
{
    reveal_strlit("skins");
    reveal_strlit("backgrounds");
    reveal_strlit("effects");
    reveal_strlit("particles");
    reveal_strlit("engines");
    reveal_strlit("levels");
    reveal_strlit("replays");
    reveal_strlit("playlists");
    reveal_strlit("posts");
    reveal_strlit("info");
    let x = a.spec_key();
    let y = b.spec_key();
    assert(x.len() > 4);
    assert(x.len() == y.len() && x[0] == y[0] && x[1] == y[1] ==> a == b);
}

/// The key of a category is one segment, and none is `repository`.
pub proof fn lemma_key_is_a_segment(c: Category)
    ensures
        has_no_slash(c.spec_key()),
        c.spec_key().len() != 10,
        c.spec_key().len() > 0,
{
    reveal_strlit("skins");
    reveal_strlit("backgrounds");
    reveal_strlit("effects");
    reveal_strlit("particles");
    reveal_strlit("engines");
    reveal_strlit("levels");
    reveal_strlit("replays");
    reveal_strlit("playlists");
    reveal_strlit("posts");
    let k = c.spec_key();
    assert(k.len() <= 11);
    assert forall|i: int| 0 <= i < k.len() implies k[i] != '/' by {
        if i == 0 {
        } else if i == 1 {
        } else if i == 2 {
        } else if i == 3 {
        } else if i == 4 {
        } else if i == 5 {
        } else if i == 6 {
        } else if i == 7 {
        } else if i == 8 {
        } else if i == 9 {
        } else if i == 10 {
        }
    }
}

/// Two names below the directories of two categories are the same only
/// where the categories are, and what follows the directory is.
pub proof fn lemma_same_directory(a: Category, x: Seq<char>, b: Category, y: Seq<char>)
    requires
        a.spec_prefix() + x == b.spec_prefix() + y,
    ensures
        a == b,
        x == y,
{
    reveal_strlit("/");
    lemma_key_is_a_segment(a);
    lemma_key_is_a_segment(b);
    let ka = a.spec_key();
    let kb = b.spec_key();
    assert("/"@ =~= seq!['/']);
    assert(a.spec_prefix() + x =~= root() + (ka + seq!['/'] + x));
    assert(b.spec_prefix() + y =~= root() + (kb + seq!['/'] + y));
    lemma_concat_cancel(root(), ka + seq!['/'] + x, kb + seq!['/'] + y);
    lemma_split_at_slash(ka, x, kb, y);
    lemma_keys_distinct(a, b);
}

/// No name below the directory of a category is the name of the info, of
/// the package or of an asset.
pub proof fn lemma_outside_directory(c: Category, y: Seq<char>, x: Seq<char>)
    ensures
        info_path() != c.spec_prefix() + y,
        package_path() != c.spec_prefix() + y,
        repository_prefix() + x != c.spec_prefix() + y,
        info_path() != repository_prefix() + x,
        package_path() != repository_prefix() + x,
{
    reveal_strlit("/");
    reveal_strlit("info");
    reveal_strlit("package");
    reveal_strlit("repository/");
    lemma_key_is_a_segment(c);
    let k = c.spec_key();
    let info = "info"@;
    let package = "package"@;
    let repository = seq!['r', 'e', 'p', 'o', 's', 'i', 't', 'o', 'r', 'y'];
    assert("/"@ =~= seq!['/']);
    assert("repository/"@ =~= repository + seq!['/']);
    assert(has_no_slash(info)) by {
        assert forall|i: int| 0 <= i < info.len() implies info[i] != '/' by {
            if i == 0 {
            } else if i == 1 {
            } else if i == 2 {
            } else if i == 3 {
            }
        }
    }
    assert(has_no_slash(package)) by {
        assert forall|i: int| 0 <= i < package.len() implies package[i] != '/' by {
            if i == 0 {
            } else if i == 1 {
            } else if i == 2 {
            } else if i == 3 {
            } else if i == 4 {
            } else if i == 5 {
            } else if i == 6 {
            }
        }
    }
    assert(has_no_slash(repository));
    assert(c.spec_prefix() + y =~= root() + (k + seq!['/'] + y));
    assert(repository_prefix() + x =~= root() + (repository + seq!['/'] + x));
    lemma_no_slash_is_no_path(info, k, y);
    lemma_no_slash_is_no_path(package, k, y);
    lemma_no_slash_is_no_path(info, repository, x);
    lemma_no_slash_is_no_path(package, repository, x);
    if info_path() == c.spec_prefix() + y {
        lemma_concat_cancel(root(), info, k + seq!['/'] + y);
    }
    if package_path() == c.spec_prefix() + y {
        lemma_concat_cancel(root(), package, k + seq!['/'] + y);
    }
    if info_path() == repository_prefix() + x {
        lemma_concat_cancel(root(), info, repository + seq!['/'] + x);
    }
    if package_path() == repository_prefix() + x {
        lemma_concat_cancel(root(), package, repository + seq!['/'] + x);
    }
    if repository_prefix() + x == c.spec_prefix() + y {
        lemma_concat_cancel(root(), repository + seq!['/'] + x, k + seq!['/'] + y);
        lemma_split_at_slash(repository, x, k, y);
    }
}

/// The plural name of every category is its singular name with an `s`.
pub proof fn law_plural_is_singular_with_s(c: Category)
    ensures
        c.spec_key() == c.spec_item_type() + seq!['s'],
{
    reveal_strlit("skins");
    reveal_strlit("backgrounds");
    reveal_strlit("effects");
    reveal_strlit("particles");
    reveal_strlit("engines");
    reveal_strlit("levels");
    reveal_strlit("replays");
    reveal_strlit("playlists");
    reveal_strlit("posts");
    reveal_strlit("skin");
    reveal_strlit("background");
    reveal_strlit("effect");
    reveal_strlit("particle");
    reveal_strlit("engine");
    reveal_strlit("level");
    reveal_strlit("replay");
    reveal_strlit("playlist");
    reveal_strlit("post");
    assert(c.spec_key() =~= c.spec_item_type() + seq!['s']);
}

} // verus!
