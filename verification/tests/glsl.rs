use server::declare::Declare;
use server::shader::{Declaration, Field, Shader, ShaderType};
use server::texture::{data_fits, Filter, Format, Parameters, Type, Wrap};
use server::uniform::Sampler2d;
use server::vector::{Vector2, Vector3, Vector4};

fn lit<D: Declare>(d: &D) -> String {
    let mut out = String::new();
    d.literal(&mut out);
    out
}

fn ty<D: Declare>() -> String {
    let mut out = String::new();
    D::declare_type(&mut out);
    out
}

#[test]
fn scalar_literals() {
    assert_eq!(lit(&0i32), "0");
    assert_eq!(lit(&-1205i32), "-1205");
    assert_eq!(lit(&i32::MIN), "-2147483648");
    assert_eq!(lit(&7u32), "7u");
    assert_eq!(lit(&u32::MAX), "4294967295u");
    assert_eq!(lit(&true), "true");
    assert_eq!(lit(&false), "false");
}

#[test]
fn type_names() {
    assert_eq!(ty::<i32>(), "int");
    assert_eq!(ty::<u32>(), "uint");
    assert_eq!(ty::<bool>(), "bool");
    assert_eq!(ty::<[u32; 12]>(), "uint[12]");
    assert_eq!(ty::<Vector3<i32>>(), "ivec3");
    assert_eq!(ty::<Vector2<u32>>(), "uvec2");
    assert_eq!(ty::<Sampler2d>(), "sampler2D");
}

#[test]
fn compound_literals() {
    assert_eq!(lit(&[1i32, -2, 3]), "{1, -2, 3}");
    let empty: [u32; 0] = [];
    assert_eq!(lit(&empty), "{}");
    assert_eq!(lit(&Vector2 { x: 1i32, y: -1 }), "ivec2(1, -1)");
    assert_eq!(lit(&Vector4 { x: 1u32, y: 2, z: 3, w: 4 }), "uvec4(1u, 2u, 3u, 4u)");
    assert_eq!(lit(&Sampler2d::new(3).unwrap()), "3");
}

#[test]
fn sampler_units() {
    assert!(Sampler2d::new(-1).is_none());
    assert_eq!(Sampler2d::zero().get(), 0);
    assert_eq!(Sampler2d::new(server::uniform::MAX_UNIT).unwrap().get(), server::uniform::MAX_UNIT);
    assert!(Sampler2d::new(server::uniform::MAX_UNIT + 1).is_none());
}

#[test]
fn declaration_text() {
    let d = Declaration { typ: "vec3", name: "color" };
    let mut out = String::from(">");
    d.write_glsl("uniform", &mut out);
    assert_eq!(out, ">uniform vec3 color");
}

#[test]
fn shader_source() {
    let layout = [
        Field { name: "pos", typ: "vec3" },
        Field { name: "uv", typ: "vec2" },
    ];
    let consts = [("N", "4".to_string()), ("MAX", "8u".to_string())];
    let uniforms = [Declaration { typ: "mat4", name: "view" }];
    let in_vars = [Declaration { typ: "vec2", name: "fuv" }];
    let out_vars = [Declaration { typ: "vec4", name: "color" }];
    let shader = Shader {
        typ: ShaderType::Vertex,
        layout: &layout,
        consts: &consts,
        uniforms: &uniforms,
        in_vars: &in_vars,
        out_vars: &out_vars,
        src: "void main() { int a[$N]; uint m = $MAX; }",
    };
    let mut out = String::new();
    shader.write_glsl(&mut out);
    assert_eq!(
        out,
        "#version 410\n\
         layout (location = 0) in vec3 pos;\n\
         layout (location = 1) in vec2 uv;\n\
         uniform mat4 view;\n\
         in vec2 fuv;\n\
         out vec4 color;\n\
         void main() { int a[4; uint m = 8u }"
    );
}

#[test]
fn shader_without_constants_is_copied() {
    let shader = Shader {
        typ: ShaderType::Fragment,
        layout: &[],
        consts: &[],
        uniforms: &[],
        in_vars: &[],
        out_vars: &[],
        src: "void main() {}",
    };
    let mut out = String::new();
    shader.write_glsl(&mut out);
    assert_eq!(out, "#version 410\nvoid main() {}");
}

#[test]
fn constant_at_the_end() {
    let consts = [("X", "1".to_string())];
    let shader = Shader {
        typ: ShaderType::Fragment,
        layout: &[],
        consts: &consts,
        uniforms: &[],
        in_vars: &[],
        out_vars: &[],
        src: "a $X$X",
    };
    let mut out = String::new();
    shader.write_glsl(&mut out);
    assert_eq!(out, "#version 410\na 11");
}

#[test]
fn texture_parameters() {
    assert_eq!(Format::R.n_components(), 1);
    assert_eq!(Format::Rg.n_components(), 2);
    assert_eq!(Format::Rgb.n_components(), 3);
    assert_eq!(Format::Rgba.n_components(), 4);
    let p = Parameters::default();
    assert_eq!(p.typ, Type::Common);
    assert_eq!(p.format, Format::Rgba);
    assert_eq!(p.filter, Filter::Nearest);
    assert_eq!(p.wrap, Wrap::Repeat);
}

#[test]
fn texture_type_follows_the_sample_count() {
    assert_eq!(Type::with_samples(0), Type::Common);
    assert_eq!(Type::with_samples(4), Type::Multisample(4));
}

#[test]
fn texture_data_must_cover_every_channel() {
    let size = Vector2::new(3u32, 2u32);
    assert!(data_fits(0, size, Format::Rgba));
    assert!(data_fits(24, size, Format::Rgba));
    assert!(data_fits(6, size, Format::R));
    assert!(!data_fits(23, size, Format::Rgba));
    assert!(data_fits(18, size, Format::Rgb));
    assert!(!data_fits(7, size, Format::Rg));
    assert!(!data_fits(usize::MAX, Vector2::new(u32::MAX, u32::MAX), Format::Rgba));
}
