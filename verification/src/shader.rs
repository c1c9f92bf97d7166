//! The choice of the rasterizer's fragment shader by its name.

use vstd::prelude::*;

verus! {

/// The fragment shaders.
#[derive(Clone, Copy, Debug, PartialEq, Eq, Structural)]
pub enum ShaderKind {
    Normal,
    Phong,
    Texture,
    Bump,
    Displacement,
}

/// The name of the texture file, below the directory of the model.
pub open spec fn texture_file() -> Seq<char> {
    "spot_texture.png"@
}

/// The shader that a method's name stands for; the Phong shader for a name
/// that is none of a shader.
pub open spec fn spec_shader(method: Seq<char>) -> ShaderKind {
    if method == "normal"@ {
        ShaderKind::Normal
    } else if method == "texture"@ {
        ShaderKind::Texture
    } else if method == "bump"@ {
        ShaderKind::Bump
    } else if method == "displacement"@ {
        ShaderKind::Displacement
    } else {
        ShaderKind::Phong
    }
}

/// Chooses the fragment shader by the method's name, and names the texture
/// file to load where the shader is the texture shader.
pub fn choose_shader_texture(method: &str, obj_path: &str) -> (r: (ShaderKind, Option<String>))
    ensures
        r.0 == spec_shader(method@),
        r.1.is_some() == (method@ == "texture"@),
        r.1.is_some() ==> r.1.unwrap()@ == obj_path@ + texture_file(),
{
    proof {
        reveal_strlit("normal");
        reveal_strlit("texture");
        reveal_strlit("bump");
        reveal_strlit("displacement");
        assert("normal"@.len() == 6);
        assert("texture"@.len() == 7);
        assert("bump"@.len() == 4);
        assert("displacement"@.len() == 12);
    }
    if same_text(method, "normal") {
        (ShaderKind::Normal, None)
    } else if same_text(method, "texture") {
        (ShaderKind::Texture, Some(join(obj_path, "spot_texture.png")))
    } else if same_text(method, "bump") {
        (ShaderKind::Bump, None)
    } else if same_text(method, "displacement") {
        (ShaderKind::Displacement, None)
    } else {
        (ShaderKind::Phong, None)
    }
}

/// Whether two strings hold the same characters.
fn same_text(a: &str, b: &str) -> (r: bool)
    ensures
        r == (a@ == b@),
{
    a.to_owned().eq(&b.to_owned())
}

/// The first string followed by the second.
fn join(a: &str, b: &str) -> (r: String)
    ensures
        r@ == a@ + b@,
{
    let mut r = a.to_owned();
    r.append(b);
    r
}

} // verus!
