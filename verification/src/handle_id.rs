//! Identifiers for the resources generated from a sprite file.
//!
//! A resource is identified by the path of its file and a label, written
//! `{file_path}#{label}`. The following labels are used:
//!
//! | Label                      | Resource                                      |
//! | -------------------------- | --------------------------------------------- |
//! | `Animation/{tag_name}`     | The animation with the given tag name.        |
//! | `Atlas`                    | The texture atlas for the entire sprite.      |
//! | `AtlasImage`               | The image of the texture atlas.               |
//! | `FrameImage{index}`        | The image of the frame with the given index.  |
//! | `Slice/{name}`             | The slice with the given name.                |
//! | `Tileset{tileset_id}`      | The tileset with the given id.                |
//! | `TilesetImage{tileset_id}` | The image of the tileset with the given id.   |
//!
//! Slices and animations are keyed by name. If a file has several slices or
//! several tags of one name, they share one identifier, and the resource
//! stored last under it is the one that stays.
use vstd::prelude::*;
use vstd::string::StringExecFns;

verus! {

/// The decimal digit for `d`, which is below ten.
pub open spec fn digit(d: nat) -> char {
    if d == 0 {
        '0'
    } else if d == 1 {
        '1'
    } else if d == 2 {
        '2'
    } else if d == 3 {
        '3'
    } else if d == 4 {
        '4'
    } else if d == 5 {
        '5'
    } else if d == 6 {
        '6'
    } else if d == 7 {
        '7'
    } else if d == 8 {
        '8'
    } else {
        '9'
    }
}

/// The decimal notation of `n`, without leading zeros.
pub open spec fn decimal(n: nat) -> Seq<char>
    decreases n,
{
    if n < 10 {
        seq![digit(n)]
    } else {
        decimal(n / 10).push(digit(n % 10))
    }
}

/// The identifier made of a path, a kind of resource and a suffix.
pub open spec fn id_of(path: Seq<char>, kind: Seq<char>, suffix: Seq<char>) -> Seq<char> {
    path.push('#') + kind + suffix
}

/// Different digits are written differently.
pub proof fn lemma_digit_injective(a: nat, b: nat)
    requires
        a < 10,
        b < 10,
        digit(a) == digit(b),
    ensures
        a == b,
{
}

/// A number is written with at least one digit.
pub proof fn lemma_decimal_len(n: nat)
    ensures
        decimal(n).len() >= 1,
        n >= 10 ==> decimal(n).len() >= 2,
    decreases n,
{
    if n >= 10 {
        lemma_decimal_len(n / 10);
    }
}

/// Different numbers are written differently.
pub proof fn lemma_decimal_injective(a: nat, b: nat)
    requires
        decimal(a) == decimal(b),
    ensures
        a == b,
    decreases a,
{
    lemma_decimal_len(a);
    lemma_decimal_len(b);
    if a < 10 && b < 10 {
        assert(decimal(a)[0] == digit(a));
        assert(decimal(b)[0] == digit(b));
        lemma_digit_injective(a, b);
    } else if a >= 10 && b >= 10 {
        let front_a = decimal(a / 10);
        let front_b = decimal(b / 10);
        assert(front_a.push(digit(a % 10)).drop_last() =~= front_a);
        assert(front_b.push(digit(b % 10)).drop_last() =~= front_b);
        assert(front_a.push(digit(a % 10)).last() == digit(a % 10));
        assert(front_b.push(digit(b % 10)).last() == digit(b % 10));
        lemma_decimal_injective(a / 10, b / 10);
        lemma_digit_injective(a % 10, b % 10);
    }
}

/// Identifiers of one file and one kind that differ in their suffix differ.
pub proof fn lemma_id_of_injective(path: Seq<char>, kind: Seq<char>, a: Seq<char>, b: Seq<char>)
    requires
        id_of(path, kind, a) == id_of(path, kind, b),
    ensures
        a == b,
{
    let prefix = path.push('#') + kind;
    assert(id_of(path, kind, a) == prefix + a);
    assert(id_of(path, kind, b) == prefix + b);
    assert((prefix + a).len() == prefix.len() + a.len());
    assert((prefix + b).len() == prefix.len() + b.len());
    assert forall|i: int| 0 <= i < a.len() implies a[i] == b[i] by {
        assert((prefix + a)[prefix.len() + i] == a[i]);
        assert((prefix + b)[prefix.len() + i] == b[i]);
    }
    assert(a =~= b);
}

/// The resources of one file and one kind that are numbered, such as the
/// images of its frames or its tilesets, have different identifiers for
/// different numbers.
pub proof fn lemma_numbered_ids_differ(path: Seq<char>, kind: Seq<char>, a: u32, b: u32)
    requires
        id_of(path, kind, decimal(a as nat)) == id_of(path, kind, decimal(b as nat)),
    ensures
        a == b,
{
    lemma_id_of_injective(path, kind, decimal(a as nat), decimal(b as nat));
    lemma_decimal_injective(a as nat, b as nat);
}

/// The one-character string of a decimal digit.
fn digit_str(d: u32) -> (s: &'static str)
    requires
        d < 10,
    ensures
        s@ == seq![digit(d as nat)],
{
    proof {
        reveal_strlit("0");
        reveal_strlit("1");
        reveal_strlit("2");
        reveal_strlit("3");
        reveal_strlit("4");
        reveal_strlit("5");
        reveal_strlit("6");
        reveal_strlit("7");
        reveal_strlit("8");
        reveal_strlit("9");
    }
    let s = if d == 0 {
        "0"
    } else if d == 1 {
        "1"
    } else if d == 2 {
        "2"
    } else if d == 3 {
        "3"
    } else if d == 4 {
        "4"
    } else if d == 5 {
        "5"
    } else if d == 6 {
        "6"
    } else if d == 7 {
        "7"
    } else if d == 8 {
        "8"
    } else {
        "9"
    };
    assert(s@ =~= seq![digit(d as nat)]);
    s
}

/// Writes a number in decimal notation.
pub fn decimal_string(n: u32) -> (s: String)
    ensures
        s@ == decimal(n as nat),
    decreases n,
{
    if n < 10 {
        String::from_str(digit_str(n))
    } else {
        let mut s = decimal_string(n / 10);
        s.append(digit_str(n % 10));
        assert(s@ =~= decimal(n as nat));
        s
    }
}

/// Makes the identifier of a path, a kind of resource and a suffix.
fn make(path: &str, kind: &str, suffix: Option<&str>) -> (id: String)
    ensures
        id@ == id_of(
            path@,
            kind@,
            match suffix {
                Some(s) => s@,
                None => Seq::<char>::empty(),
            },
        ),
{
    proof {
        reveal_strlit("#");
    }
    let mut id = String::from_str(path);
    id.append("#");
    assert(id@ =~= path@.push('#'));
    id.append(kind);
    match suffix {
        Some(s) => {
            id.append(s);
        },
        None => {
            assert(id@ =~= id_of(path@, kind@, Seq::<char>::empty()));
        },
    }
    id
}

/// Makes the identifier of an animation.
///
/// It takes the form `{file_path}#Animation/{tag_name}`. Tags of one file
/// that share a name share this identifier.
pub fn animation(path: &str, tag_name: &str) -> (id: String)
    ensures
        id@ == id_of(path@, "Animation/"@, tag_name@),
{
    make(path, "Animation/", Some(tag_name))
}

/// Makes the identifier of a frame's image.
///
/// It takes the form `{file_path}#FrameImage{index}`.
pub fn frame_image(path: &str, frame: u32) -> (id: String)
    ensures
        id@ == id_of(path@, "FrameImage"@, decimal(frame as nat)),
{
    let index = decimal_string(frame);
    make(path, "FrameImage", Some(index.as_str()))
}

/// Makes the identifier of a file's texture atlas.
///
/// It takes the form `{file_path}#Atlas`.
pub fn atlas(path: &str) -> (id: String)
    ensures
        id@ == id_of(path@, "Atlas"@, Seq::<char>::empty()),
{
    make(path, "Atlas", None)
}

/// Makes the identifier of the image of a file's texture atlas.
///
/// It takes the form `{file_path}#AtlasImage`.
pub fn atlas_image(path: &str) -> (id: String)
    ensures
        id@ == id_of(path@, "AtlasImage"@, Seq::<char>::empty()),
{
    make(path, "AtlasImage", None)
}

/// Makes the identifier of a tileset.
///
/// It takes the form `{file_path}#Tileset{tileset_id}`.
pub fn tileset(path: &str, tileset_id: u32) -> (id: String)
    ensures
        id@ == id_of(path@, "Tileset"@, decimal(tileset_id as nat)),
{
    let index = decimal_string(tileset_id);
    make(path, "Tileset", Some(index.as_str()))
}

/// Makes the identifier of a tileset's image.
///
/// It takes the form `{file_path}#TilesetImage{tileset_id}`.
pub fn tileset_image(path: &str, tileset_id: u32) -> (id: String)
    ensures
        id@ == id_of(path@, "TilesetImage"@, decimal(tileset_id as nat)),
{
    let index = decimal_string(tileset_id);
    make(path, "TilesetImage", Some(index.as_str()))
}

/// Makes the identifier of a slice.
///
/// It takes the form `{file_path}#Slice/{slice_name}`. Slices of one file
/// that share a name share this identifier.
pub fn slice(path: &str, name: &str) -> (id: String)
    ensures
        id@ == id_of(path@, "Slice/"@, name@),
{
    make(path, "Slice/", Some(name))
}

} // verus!
