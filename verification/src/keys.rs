//! Deterministic resource keys.
//!
//! Every mesh and every named animation of an asset is registered in the
//! document's resource table under a key derived from the asset id, so that
//! emitted properties can refer to them by name: `"<id>.meshes.<i>"` for the
//! i-th mesh and `"<id>.animations.<name>"` for a named animation.

use vstd::prelude::*;
use vstd::string::StringSliceAdditionalSpecFns;

verus! {

/// The decimal digit character for `d` in `0..10`.
pub open spec fn digit_char(d: int) -> char {
    if d == 0 {
        '0'
    } else if d == 1 {
        '1'
    } else if d == 2 {
        '2'
    } else if d == 3 {
        '3'
    } else if d == 4 {
        '4'
    } else if d == 5 {
        '5'
    } else if d == 6 {
        '6'
    } else if d == 7 {
        '7'
    } else if d == 8 {
        '8'
    } else {
        '9'
    }
}

/// The usual decimal representation of `n`: most significant digit first,
/// no leading zeros (except for `n == 0` itself).
pub open spec fn dec_rep(n: nat) -> Seq<char>
    decreases n,
{
    if n < 10 {
        seq![digit_char(n as int)]
    } else {
        dec_rep(n / 10) + seq![digit_char((n % 10) as int)]
    }
}

fn digit_str(d: u64) -> (r: &'static str)
    requires
        d < 10,
    ensures
        r@ == seq![digit_char(d as int)],
{
    let r = match d {
        0 => "0",
        1 => "1",
        2 => "2",
        3 => "3",
        4 => "4",
        5 => "5",
        6 => "6",
        7 => "7",
        8 => "8",
        _ => "9",
    };
    proof {
        reveal_strlit("0");
        reveal_strlit("1");
        reveal_strlit("2");
        reveal_strlit("3");
        reveal_strlit("4");
        reveal_strlit("5");
        reveal_strlit("6");
        reveal_strlit("7");
        reveal_strlit("8");
        reveal_strlit("9");
        assert(r@ =~= seq![digit_char(d as int)]);
    }
    r
}

/// Renders `n` in decimal.
pub fn u64_to_dec(n: u64) -> (s: String)
    ensures
        s@ == dec_rep(n as nat),
    decreases n,
{
    if n < 10 {
        String::from_str(digit_str(n))
    } else {
        let mut s = u64_to_dec(n / 10);
        s.append(digit_str(n % 10));
        proof {
            assert(s@ =~= dec_rep(n as nat));
        }
        s
    }
}

/// The registry key of the `i`-th mesh of the asset `id`.
pub open spec fn mesh_key_spec(id: Seq<char>, i: nat) -> Seq<char> {
    id + ".meshes."@ + dec_rep(i)
}

/// The registry key of the animation `name` of the asset `id`.
pub open spec fn anim_key_spec(id: Seq<char>, name: Seq<char>) -> Seq<char> {
    id + ".animations."@ + name
}

/// The property key under which an animation is bound on the asset's
/// top-level entity.
pub open spec fn anim_prop_key_spec(name: Seq<char>) -> Seq<char> {
    "animation_"@ + name
}

pub fn mesh_key(id: &str, i: usize) -> (r: String)
    ensures
        r@ == mesh_key_spec(id@, i as nat),
{
    let mut s = String::from_str(id);
    s.append(".meshes.");
    let d = u64_to_dec(i as u64);
    s.append(d.as_str());
    proof {
        assert(s@ =~= mesh_key_spec(id@, i as nat));
    }
    s
}

pub fn anim_key(id: &str, name: &str) -> (r: String)
    ensures
        r@ == anim_key_spec(id@, name@),
{
    let mut s = String::from_str(id);
    s.append(".animations.");
    s.append(name);
    proof {
        assert(s@ =~= anim_key_spec(id@, name@));
    }
    s
}

pub fn anim_prop_key(name: &str) -> (r: String)
    ensures
        r@ == anim_prop_key_spec(name@),
{
    let mut s = String::from_str("animation_");
    s.append(name);
    proof {
        assert(s@ =~= anim_prop_key_spec(name@));
    }
    s
}

/// Joins a root directory and a relative path with a single separator.
pub open spec fn joined_path_spec(root: Seq<char>, rel: Seq<char>) -> Seq<char> {
    root + "/"@ + rel
}

pub fn join_path(root: &str, rel: &str) -> (r: String)
    ensures
        r@ == joined_path_spec(root@, rel@),
{
    let mut s = String::from_str(root);
    s.append("/");
    s.append(rel);
    proof {
        assert(s@ =~= joined_path_spec(root@, rel@));
    }
    s
}

/// Whether a path names the one source format whose importer backend stores
/// texture coordinates with the V axis inverted: its files end in the two
/// bytes `.x` (the byte values of `'.'` and `'x'`).
pub open spec fn x_extension(b: Seq<u8>) -> bool {
    b.len() >= 2 && b[b.len() - 2] == 46u8 && b[b.len() - 1] == 120u8
}

/// Tests the file extension that triggers the texture-coordinate correction.
pub fn path_is_x_format(path: &str) -> (r: bool)
    ensures
        r == x_extension(path.spec_bytes()),
{
    let b = path.as_bytes();
    b.len() >= 2 && b[b.len() - 2] == 46u8 && b[b.len() - 1] == 120u8
}


pub proof fn lemma_dec_rep_len(n: nat)
    ensures
        dec_rep(n).len() >= 1,
        n >= 10 ==> dec_rep(n).len() >= 2,
    decreases n,
{
    if n >= 10 {
        lemma_dec_rep_len(n / 10);
    }
}

/// Distinct numbers render to distinct decimal strings.
pub proof fn lemma_dec_rep_injective(a: nat, b: nat)
    requires
        a != b,
    ensures
        dec_rep(a) != dec_rep(b),
    decreases a + b,
{
    lemma_dec_rep_len(a);
    lemma_dec_rep_len(b);
    if a < 10 && b < 10 {
        assert(dec_rep(a)[0] == digit_char(a as int));
        assert(dec_rep(b)[0] == digit_char(b as int));
    } else if a < 10 {
        assert(dec_rep(a).len() == 1);
    } else if b < 10 {
        assert(dec_rep(b).len() == 1);
    } else {
        vstd::arithmetic::div_mod::lemma_fundamental_div_mod(a as int, 10);
        vstd::arithmetic::div_mod::lemma_fundamental_div_mod(b as int, 10);
        let la = dec_rep(a / 10).len() as int;
        let lb = dec_rep(b / 10).len() as int;
        assert(dec_rep(a)[la] == digit_char((a % 10) as int));
        assert(dec_rep(b)[lb] == digit_char((b % 10) as int));
        if a % 10 != b % 10 {
            if dec_rep(a) == dec_rep(b) {
                assert(la + 1 == lb + 1);
                assert(digit_char((a % 10) as int) == digit_char((b % 10) as int));
                assert(false);
            }
        } else {
            lemma_dec_rep_injective(a / 10, b / 10);
            if dec_rep(a) == dec_rep(b) {
                assert(la == lb);
                assert(dec_rep(a).subrange(0, la) =~= dec_rep(a / 10));
                assert(dec_rep(b).subrange(0, lb) =~= dec_rep(b / 10));
                assert(false);
            }
        }
    }
}

/// Within one asset, distinct mesh indices get distinct keys.
pub proof fn lemma_mesh_keys_distinct(id: Seq<char>, i: nat, j: nat)
    requires
        i != j,
    ensures
        mesh_key_spec(id, i) != mesh_key_spec(id, j),
{
    lemma_dec_rep_injective(i, j);
    let p = id + ".meshes."@;
    if mesh_key_spec(id, i) == mesh_key_spec(id, j) {
        assert(mesh_key_spec(id, i) == p + dec_rep(i));
        assert(mesh_key_spec(id, j) == p + dec_rep(j));
        assert((p + dec_rep(i)).len() == p.len() + dec_rep(i).len());
        assert((p + dec_rep(j)).len() == p.len() + dec_rep(j).len());
        assert(dec_rep(i).len() == dec_rep(j).len());
        assert((p + dec_rep(i)).subrange(p.len() as int, (p + dec_rep(i)).len() as int)
            =~= dec_rep(i));
        assert((p + dec_rep(j)).subrange(p.len() as int, (p + dec_rep(j)).len() as int)
            =~= dec_rep(j));
        assert(false);
    }
}

/// A mesh key never collides with an animation key of the same asset.
pub proof fn lemma_key_kinds_distinct(id: Seq<char>, i: nat, name: Seq<char>)
    ensures
        mesh_key_spec(id, i) != anim_key_spec(id, name),
{
    reveal_strlit(".meshes.");
    reveal_strlit(".animations.");
    lemma_dec_rep_len(i);
    let n = id.len() as int;
    assert(mesh_key_spec(id, i)[n + 1] == 'm');
    assert(anim_key_spec(id, name)[n + 1] == 'a');
}

/// Within one asset, distinct animation names get distinct keys.
pub proof fn lemma_anim_keys_distinct(id: Seq<char>, n1: Seq<char>, n2: Seq<char>)
    requires
        n1 != n2,
    ensures
        anim_key_spec(id, n1) != anim_key_spec(id, n2),
{
    let p = id + ".animations."@;
    if anim_key_spec(id, n1) == anim_key_spec(id, n2) {
        assert((p + n1).subrange(p.len() as int, (p + n1).len() as int) =~= n1);
        assert((p + n2).subrange(p.len() as int, (p + n2).len() as int) =~= n2);
        assert(false);
    }
}

/// Distinct animation names get distinct binding property keys.
pub proof fn lemma_anim_prop_keys_distinct(n1: Seq<char>, n2: Seq<char>)
    requires
        n1 != n2,
    ensures
        anim_prop_key_spec(n1) != anim_prop_key_spec(n2),
{
    let p = "animation_"@;
    if anim_prop_key_spec(n1) == anim_prop_key_spec(n2) {
        assert((p + n1).subrange(p.len() as int, (p + n1).len() as int) =~= n1);
        assert((p + n2).subrange(p.len() as int, (p + n2).len() as int) =~= n2);
        assert(false);
    }
}



/// An animation binding key never collides with any property key the
/// mapper writes on a node entity: it starts with "animation_", which none
/// of those ten keys does.
pub proof fn lemma_anim_prop_key_not_node_key(name: Seq<char>)
    ensures
        anim_prop_key_spec(name) != "diffuse"@,
        anim_prop_key_spec(name) != "translation"@,
        anim_prop_key_spec(name) != "rotation"@,
        anim_prop_key_spec(name) != "scale"@,
        anim_prop_key_spec(name) != "local_transform"@,
        anim_prop_key_spec(name) != "transform"@,
        anim_prop_key_spec(name) != "shader"@,
        anim_prop_key_spec(name) != "uniforms"@,
        anim_prop_key_spec(name) != "alpha"@,
        anim_prop_key_spec(name) != "mesh"@,
{
    reveal_strlit("animation_");
    reveal_strlit("diffuse");
    reveal_strlit("translation");
    reveal_strlit("rotation");
    reveal_strlit("scale");
    reveal_strlit("local_transform");
    reveal_strlit("transform");
    reveal_strlit("shader");
    reveal_strlit("uniforms");
    reveal_strlit("alpha");
    reveal_strlit("mesh");
    assert("animation_"@[1] == 'n');
    assert("translation"@[1] == 'r');
    assert("local_transform"@[1] == 'o');
    assert("animation_"@.len() == 10);
    assert("diffuse"@.len() == 7);
    assert("translation"@.len() == 11);
    assert("rotation"@.len() == 8);
    assert("scale"@.len() == 5);
    assert("local_transform"@.len() == 15);
    assert("transform"@.len() == 9);
    assert("shader"@.len() == 6);
    assert("uniforms"@.len() == 8);
    assert("alpha"@.len() == 5);
    assert("mesh"@.len() == 4);
    let k = anim_prop_key_spec(name);
    assert(k.len() >= 10);
    assert(k[1] == 'n');
}

} // verus!
