//! File icons and size units of the asset browser.
use vstd::prelude::*;
use crate::text::str_eq;

verus! {

/// The icon and RGB colour of a directory.
pub open spec fn dir_icon() -> (Seq<char>, Seq<u8>) {
    ("📁"@, seq![240u8, 200, 80])
}

/// The icon and RGB colour that the asset browser shows for a file extension.
pub open spec fn file_icon(ext: Seq<char>) -> (Seq<char>, Seq<u8>) {
    if ext == "glb"@ || ext == "gltf"@ || ext == "obj"@ || ext == "fbx"@ {
        ("🧊"@, seq![130u8, 200, 250])
    } else if ext == "png"@ || ext == "jpg"@ || ext == "jpeg"@ || ext == "hdr"@ || ext == "exr"@ || ext == "tga"@ || ext == "bmp"@ || ext == "webp"@ {
        ("🖼"@, seq![100u8, 220, 140])
    } else if ext == "wav"@ || ext == "mp3"@ || ext == "ogg"@ || ext == "flac"@ || ext == "aac"@ {
        ("🔊"@, seq![250u8, 150, 200])
    } else if ext == "wgsl"@ || ext == "glsl"@ || ext == "vert"@ || ext == "frag"@ || ext == "spv"@ || ext == "hlsl"@ {
        ("🎨"@, seq![200u8, 180, 100])
    } else if ext == "rs"@ || ext == "lua"@ || ext == "py"@ || ext == "js"@ || ext == "ts"@ || ext == "c"@ || ext == "cpp"@ || ext == "h"@ || ext == "hpp"@ {
        ("📜"@, seq![180u8, 200, 220])
    } else if ext == "rustixproj"@ {
        ("⚙"@, seq![120u8, 240, 200])
    } else if ext == "scene"@ || ext == "json"@ || ext == "yaml"@ || ext == "yml"@ || ext == "toml"@ || ext == "xml"@ {
        ("📋"@, seq![200u8, 200, 180])
    } else if ext == "md"@ || ext == "txt"@ || ext == "log"@ {
        ("📝"@, seq![180u8, 180, 180])
    } else if ext == "ttf"@ || ext == "otf"@ || ext == "fon"@ {
        ("🔤"@, seq![220u8, 180, 140])
    } else if ext == "anim"@ || ext == "skeleton"@ {
        ("🦴"@, seq![220u8, 160, 120])
    } else {
        ("📄"@, seq![160u8, 160, 170])
    }
}

/// Whether `ext` equals one of `names`.
fn ext_in(ext: &str, names: &[&str]) -> (r: bool)
    ensures
        r == exists|i: int| 0 <= i < names@.len() && ext@ == (#[trigger] names@[i])@,
{
    let mut i: usize = 0;
    while i < names.len()
        invariant
            0 <= i <= names@.len(),
            forall|k: int| 0 <= k < i ==> ext@ != (#[trigger] names@[k])@,
        decreases names@.len() - i,
    {
        if str_eq(ext, names[i]) {
            return true;
        }
        i = i + 1;
    }
    false
}

/// The icon and RGB colour shown for a directory, or for a file by its extension.
pub fn file_icon_and_color(is_dir: bool, ext: &str) -> (r: (&'static str, [u8; 3]))
    ensures
        is_dir ==> (r.0@, r.1@) == dir_icon(),
        !is_dir ==> (r.0@, r.1@) == file_icon(ext@),
{
    if is_dir {
        let r = ("📁", [240, 200, 80]);
        assert(r.1@ =~= dir_icon().1);
        return r;
    }
    if ext_in(ext, &["glb", "gltf", "obj", "fbx"]) {
        let r = ("🧊", [130, 200, 250]);
        assert(r.1@ =~= seq![130u8, 200, 250]);
        r
    } else if ext_in(ext, &["png", "jpg", "jpeg", "hdr", "exr", "tga", "bmp", "webp"]) {
        let r = ("🖼", [100, 220, 140]);
        assert(r.1@ =~= seq![100u8, 220, 140]);
        r
    } else if ext_in(ext, &["wav", "mp3", "ogg", "flac", "aac"]) {
        let r = ("🔊", [250, 150, 200]);
        assert(r.1@ =~= seq![250u8, 150, 200]);
        r
    } else if ext_in(ext, &["wgsl", "glsl", "vert", "frag", "spv", "hlsl"]) {
        let r = ("🎨", [200, 180, 100]);
        assert(r.1@ =~= seq![200u8, 180, 100]);
        r
    } else if ext_in(ext, &["rs", "lua", "py", "js", "ts", "c", "cpp", "h", "hpp"]) {
        let r = ("📜", [180, 200, 220]);
        assert(r.1@ =~= seq![180u8, 200, 220]);
        r
    } else if ext_in(ext, &["rustixproj"]) {
        let r = ("⚙", [120, 240, 200]);
        assert(r.1@ =~= seq![120u8, 240, 200]);
        r
    } else if ext_in(ext, &["scene", "json", "yaml", "yml", "toml", "xml"]) {
        let r = ("📋", [200, 200, 180]);
        assert(r.1@ =~= seq![200u8, 200, 180]);
        r
    } else if ext_in(ext, &["md", "txt", "log"]) {
        let r = ("📝", [180, 180, 180]);
        assert(r.1@ =~= seq![180u8, 180, 180]);
        r
    } else if ext_in(ext, &["ttf", "otf", "fon"]) {
        let r = ("🔤", [220, 180, 140]);
        assert(r.1@ =~= seq![220u8, 180, 140]);
        r
    } else if ext_in(ext, &["anim", "skeleton"]) {
        let r = ("🦴", [220, 160, 120]);
        assert(r.1@ =~= seq![220u8, 160, 120]);
        r
    } else {
        let r = ("📄", [160, 160, 170]);
        assert(r.1@ =~= seq![160u8, 160, 170]);
        r
    }
}

/// The unit index of a file size: 0 for bytes, 1 for KB, 2 for MB, 3 for GB; the
/// largest unit of at most GB whose size in bytes is at most `bytes`.
pub open spec fn size_unit(bytes: u64) -> usize {
    if bytes >= 1073741824 {
        3
    } else if bytes >= 1048576 {
        2
    } else if bytes >= 1024 {
        1
    } else {
        0
    }
}

/// The unit in which the asset browser shows a file size; the shown number is
/// `bytes` divided by 1024 once per unit step.
pub fn file_size_unit(bytes: u64) -> (r: usize)
    ensures
        r == size_unit(bytes),
{
    let mut rest = bytes;
    let mut unit_idx: usize = 0;
    while rest >= 1024 && unit_idx < 3
        invariant
            unit_idx <= 3,
            unit_idx == 0 ==> rest == bytes,
            unit_idx == 1 ==> rest == bytes / 1024 && bytes >= 1024,
            unit_idx == 2 ==> rest == bytes / 1048576 && bytes >= 1048576,
            unit_idx == 3 ==> bytes >= 1073741824,
        decreases 3 - unit_idx,
    {
        proof {
            if unit_idx == 1 {
                assert(bytes / 1024 / 1024 == bytes / 1048576) by (nonlinear_arith);
            }
            if unit_idx == 1 {
                assert(bytes / 1024 >= 1024 ==> bytes >= 1048576) by (nonlinear_arith);
            }
            if unit_idx == 2 {
                assert(bytes / 1048576 >= 1024 ==> bytes >= 1073741824) by (nonlinear_arith);
            }
        }
        rest = rest / 1024;
        unit_idx = unit_idx + 1;
    }
    proof {
        if unit_idx == 0 {
            assert(bytes < 1024);
        } else if unit_idx == 1 {
            assert(bytes / 1024 < 1024 ==> bytes < 1048576) by (nonlinear_arith);
        } else if unit_idx == 2 {
            assert(bytes / 1048576 < 1024 ==> bytes < 1073741824) by (nonlinear_arith);
        }
    }
    unit_idx
}

/// The label of a size unit.
pub fn size_unit_label(unit: usize) -> (r: &'static str)
    requires
        unit < 4,
    ensures
        unit == 0 ==> r@ == "B"@,
        unit == 1 ==> r@ == "KB"@,
        unit == 2 ==> r@ == "MB"@,
        unit == 3 ==> r@ == "GB"@,
{
    match unit {
        0 => "B",
        1 => "KB",
        2 => "MB",
        _ => "GB",
    }
}


/// `a` comes strictly before `b` in lexicographic byte order.
pub open spec fn bytes_before(a: Seq<u8>, b: Seq<u8>) -> bool
    decreases a.len(),
{
    if a.len() == 0 {
        b.len() > 0
    } else if b.len() == 0 {
        false
    } else if a[0] != b[0] {
        a[0] < b[0]
    } else {
        bytes_before(a.drop_first(), b.drop_first())
    }
}

proof fn lemma_bytes_irreflexive(a: Seq<u8>)
    ensures
        !bytes_before(a, a),
    decreases a.len(),
{
    if a.len() > 0 {
        lemma_bytes_irreflexive(a.drop_first());
    }
}

proof fn lemma_bytes_total(a: Seq<u8>, b: Seq<u8>)
    ensures
        a =~= b || bytes_before(a, b) || bytes_before(b, a),
        !(bytes_before(a, b) && bytes_before(b, a)),
    decreases a.len(),
{
    if a.len() > 0 && b.len() > 0 && a[0] == b[0] {
        lemma_bytes_total(a.drop_first(), b.drop_first());
        if a.drop_first() =~= b.drop_first() {
            assert(a =~= b) by {
                assert forall|i: int| 0 <= i < a.len() implies a[i] == b[i] by {
                    if i > 0 {
                        assert(a[i] == a.drop_first()[i - 1]);
                        assert(b[i] == b.drop_first()[i - 1]);
                    }
                }
            }
        }
    }
}

proof fn lemma_bytes_transitive(a: Seq<u8>, b: Seq<u8>, c: Seq<u8>)
    requires
        bytes_before(a, b),
        bytes_before(b, c),
    ensures
        bytes_before(a, c),
    decreases a.len(),
{
    if a.len() > 0 && b.len() > 0 && c.len() > 0 && a[0] == b[0] && b[0] == c[0] {
        lemma_bytes_transitive(a.drop_first(), b.drop_first(), c.drop_first());
    }
}

/// What the asset browser sorts a directory entry by: whether it is a directory,
/// and its file name as bytes.
pub struct EntryKey {
    pub is_dir: bool,
    pub name: Vec<u8>,
}

/// The sort key of an entry as a plain value.
pub open spec fn key_of(k: EntryKey) -> (bool, Seq<u8>) {
    (k.is_dir, k.name@)
}

/// Entry key `a` comes strictly before `b`: directories before files, and by
/// name within each.
pub open spec fn entry_before(a: (bool, Seq<u8>), b: (bool, Seq<u8>)) -> bool {
    (a.0 && !b.0) || (a.0 == b.0 && bytes_before(a.1, b.1))
}

proof fn lemma_entry_total(a: (bool, Seq<u8>), b: (bool, Seq<u8>))
    ensures
        a == b || entry_before(a, b) || entry_before(b, a),
        !(entry_before(a, b) && entry_before(b, a)),
        !entry_before(a, a),
{
    lemma_bytes_total(a.1, b.1);
    lemma_bytes_irreflexive(a.1);
}

proof fn lemma_entry_transitive(a: (bool, Seq<u8>), b: (bool, Seq<u8>), c: (bool, Seq<u8>))
    requires
        entry_before(a, b),
        entry_before(b, c),
    ensures
        entry_before(a, c),
{
    if a.0 == b.0 && b.0 == c.0 {
        lemma_bytes_transitive(a.1, b.1, c.1);
    }
}

/// `order` lists the positions of `keys` sorted as the asset browser shows them:
/// each position once, no entry after one that it comes before, and entries with
/// equal keys in the order given.
pub open spec fn is_entry_order(keys: Seq<EntryKey>, order: Seq<usize>) -> bool {
    &&& order.len() == keys.len()
    &&& forall|i: int| 0 <= i < order.len() ==> #[trigger] order[i] < keys.len()
    &&& forall|i: int, j: int| 0 <= i < j < order.len() ==> order[i] != order[j]
    &&& forall|i: int, j: int|
        0 <= i < j < order.len() ==> !entry_before(
            key_of(keys[order[j] as int]),
            key_of(keys[order[i] as int]),
        )
    &&& forall|i: int, j: int|
        0 <= i < j < order.len() && key_of(keys[order[i] as int]) == key_of(keys[order[j] as int])
            ==> order[i] < order[j]
}

fn bytes_lt(a: &[u8], b: &[u8]) -> (r: bool)
    ensures
        r == bytes_before(a@, b@),
{
    let mut i: usize = 0;
    assert(a@.skip(0) =~= a@ && b@.skip(0) =~= b@);
    while i < a.len() && i < b.len()
        invariant
            0 <= i <= a@.len(),
            i <= b@.len(),
            bytes_before(a@, b@) == bytes_before(a@.skip(i as int), b@.skip(i as int)),
        decreases a@.len() - i,
    {
        if a[i] != b[i] {
            return a[i] < b[i];
        }
        assert(a@.skip(i as int).drop_first() =~= a@.skip(i + 1));
        assert(b@.skip(i as int).drop_first() =~= b@.skip(i + 1));
        i = i + 1;
    }
    i == a.len() && i < b.len()
}

fn entry_lt(a: &EntryKey, b: &EntryKey) -> (r: bool)
    ensures
        r == entry_before(key_of(*a), key_of(*b)),
{
    (a.is_dir && !b.is_dir) || (a.is_dir == b.is_dir && bytes_lt(a.name.as_slice(), b.name.as_slice()))
}

/// The order in which the asset browser lists directory entries: directories
/// first, then by file name; entries with equal keys keep their order.
pub fn entry_order(keys: &[EntryKey]) -> (order: Vec<usize>)
    ensures
        is_entry_order(keys@, order@),
{
    let mut order: Vec<usize> = Vec::new();
    let mut i: usize = 0;
    while i < keys.len()
        invariant
            0 <= i <= keys@.len(),
            order@.len() == i,
            forall|a: int| 0 <= a < order@.len() ==> #[trigger] order@[a] < i,
            forall|a: int, b: int| 0 <= a < b < order@.len() ==> order@[a] != order@[b],
            forall|a: int, b: int|
                0 <= a < b < order@.len() ==> !entry_before(
                    key_of(keys@[order@[b] as int]),
                    key_of(keys@[order@[a] as int]),
                ),
            forall|a: int, b: int|
                0 <= a < b < order@.len() && key_of(keys@[order@[a] as int]) == key_of(
                    keys@[order@[b] as int],
                ) ==> order@[a] < order@[b],
        decreases keys@.len() - i,
    {
        // the first place whose entry comes after entry i
        let mut p: usize = 0;
        while p < order.len() && !entry_lt(&keys[i], &keys[order[p]])
            invariant
                0 <= p <= order@.len(),
                i < keys@.len(),
                forall|a: int| 0 <= a < order@.len() ==> #[trigger] order@[a] < i,
                forall|a: int|
                    0 <= a < p ==> !entry_before(
                        key_of(keys@[i as int]),
                        key_of(keys@[#[trigger] order@[a] as int]),
                    ),
            decreases order@.len() - p,
        {
            p = p + 1;
        }
        let ghost before = order@;
        let ghost ki = key_of(keys@[i as int]);
        proof {
            if p < before.len() {
                assert(entry_before(ki, key_of(keys@[before[p as int] as int])));
                // every later entry comes after entry i too
                assert forall|b: int| p <= b < before.len() implies entry_before(
                    ki,
                    key_of(keys@[#[trigger] before[b] as int]),
                ) by {
                    if b > p {
                        let kp = key_of(keys@[before[p as int] as int]);
                        let kb = key_of(keys@[before[b] as int]);
                        lemma_entry_total(kp, kb);
                        if entry_before(kp, kb) {
                            lemma_entry_transitive(ki, kp, kb);
                        }
                    }
                }
            }
        }
        order.insert(p, i);
        proof {
            assert forall|a: int, b: int|
                0 <= a < b < order@.len() implies !entry_before(
                key_of(keys@[order@[b] as int]),
                key_of(keys@[order@[a] as int]),
            ) && (key_of(keys@[order@[a] as int]) == key_of(keys@[order@[b] as int])
                ==> order@[a] < order@[b]) by {
                let ka = key_of(keys@[order@[a] as int]);
                let kb = key_of(keys@[order@[b] as int]);
                lemma_entry_total(ka, kb);
                if a < p && b == p {
                    assert(order@[a] == before[a]);
                } else if a == p && b > p {
                    assert(order@[b] == before[b - 1]);
                    assert(entry_before(ki, kb));
                } else if a < p && b > p {
                    assert(order@[a] == before[a]);
                    assert(order@[b] == before[b - 1]);
                } else if a > p {
                    assert(order@[a] == before[a - 1]);
                    assert(order@[b] == before[b - 1]);
                } else {
                    assert(order@[a] == before[a]);
                    assert(order@[b] == before[b]);
                }
            }
        }
        i = i + 1;
    }
    order
}

} // verus!
