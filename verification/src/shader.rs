//! GLSL source of a shader: the version line, the declarations, and the
//! body with its `$NAME` constants filled in.

use crate::declare::{decimal, put, write_decimal};
use vstd::prelude::*;

verus! {

/// The stage a shader runs in.
#[derive(Clone, Copy, Debug, PartialEq, Eq, Structural)]
pub enum ShaderType {
    Vertex,
    Fragment,
}

/// A declared variable: its GLSL type and its name.
pub struct Declaration<'a> {
    pub typ: &'a str,
    pub name: &'a str,
}

/// A vertex attribute of the shader's input layout: its name and GLSL type.
pub struct Field<'a> {
    pub name: &'a str,
    pub typ: &'a str,
}

/// A shader: its stage, its input layout, its constants (each name with
/// the GLSL literal of its value), its uniforms, inputs and outputs, and
/// the source of its body.
pub struct Shader<'a> {
    pub typ: ShaderType,
    pub layout: &'a [Field<'a>],
    pub consts: &'a [(&'a str, String)],
    pub uniforms: &'a [Declaration<'a>],
    pub in_vars: &'a [Declaration<'a>],
    pub out_vars: &'a [Declaration<'a>],
    pub src: &'a str,
}

/// The text `kind typ name` of a declaration.
pub open spec fn decl_text(kind: Seq<char>, d: Declaration) -> Seq<char> {
    kind + seq![' '] + d.typ@ + seq![' '] + d.name@
}

/// One line `kind typ name;` per declaration.
pub open spec fn decl_lines(kind: Seq<char>, ds: Seq<Declaration>) -> Seq<char>
    decreases ds.len(),
{
    if ds.len() == 0 {
        Seq::empty()
    } else {
        decl_lines(kind, ds.drop_last()) + decl_text(kind, ds.last()) + seq![';', '\n']
    }
}

/// The line declaring the input attribute at `location`.
pub open spec fn layout_line(location: nat, f: Field) -> Seq<char> {
    "layout (location = "@ + decimal(location) + ") in "@ + f.typ@ + seq![' '] + f.name@ + seq![
        ';',
        '\n',
    ]
}

/// One line per input attribute, at locations 0, 1, ...
pub open spec fn layout_lines(fs: Seq<Field>) -> Seq<char>
    decreases fs.len(),
{
    if fs.len() == 0 {
        Seq::empty()
    } else {
        layout_lines(fs.drop_last()) + layout_line((fs.len() - 1) as nat, fs.last())
    }
}

/// Where the line of declaration `i` starts in the lines of `ds`: after
/// the lines `kind typ name;` of the declarations before it.
pub open spec fn decl_offset(kind: Seq<char>, ds: Seq<Declaration>, i: int) -> int
    decreases i,
{
    if i <= 0 {
        0
    } else {
        decl_offset(kind, ds, i - 1) + kind.len() + ds[i - 1].typ@.len() + ds[i - 1].name@.len() + 4
    }
}

/// The lines of a list of declarations hold one line per declaration, in
/// order: line `i` is `kind typ_i name_i;`, and nothing else is written.
pub proof fn lemma_decl_lines(kind: Seq<char>, ds: Seq<Declaration>)
    ensures
        decl_lines(kind, ds).len() == decl_offset(kind, ds, ds.len() as int),
        forall|i: int|
            0 <= i < ds.len() ==> #[trigger] decl_lines(kind, ds).subrange(
                decl_offset(kind, ds, i),
                decl_offset(kind, ds, i + 1),
            ) == kind + seq![' '] + ds[i].typ@ + seq![' '] + ds[i].name@ + seq![';', '\n'],
    decreases ds.len(),
{
    if ds.len() > 0 {
        let p = ds.drop_last();
        let n = ds.len() - 1;
        lemma_decl_lines(kind, p);
        lemma_decl_offset_prefix(kind, ds, p, n);
        let a = decl_lines(kind, p);
        let b = decl_text(kind, ds.last()) + seq![';', '\n'];
        assert(decl_lines(kind, ds) == a + b);
        assert(decl_offset(kind, ds, n) == decl_offset(kind, p, n));
        assert(decl_offset(kind, ds, n + 1) == decl_offset(kind, ds, n) + b.len());
        assert forall|i: int| 0 <= i < ds.len() implies #[trigger] decl_lines(kind, ds).subrange(
            decl_offset(kind, ds, i),
            decl_offset(kind, ds, i + 1),
        ) == kind + seq![' '] + ds[i].typ@ + seq![' '] + ds[i].name@ + seq![';', '\n'] by {
            if i < n {
                lemma_decl_offset_mono(kind, p, i + 1, n);
                lemma_decl_offset_mono(kind, p, i, i + 1);
                lemma_decl_offset_mono(kind, p, 0, i);
                assert(decl_offset(kind, ds, i) == decl_offset(kind, p, i));
                assert(decl_offset(kind, ds, i + 1) == decl_offset(kind, p, i + 1));
                assert(ds[i] == p[i]);
                assert(a.subrange(decl_offset(kind, p, i), decl_offset(kind, p, i + 1)) == kind + seq![' ']
                    + p[i].typ@ + seq![' '] + p[i].name@ + seq![';', '\n']);
                assert((a + b).subrange(decl_offset(kind, ds, i), decl_offset(kind, ds, i + 1))
                    =~= a.subrange(decl_offset(kind, p, i), decl_offset(kind, p, i + 1)));
            } else {
                assert((a + b).subrange(decl_offset(kind, ds, i), decl_offset(kind, ds, i + 1)) =~= b);
                assert(b =~= kind + seq![' '] + ds[i].typ@ + seq![' '] + ds[i].name@ + seq![';', '\n']);
            }
        }
    }
}

/// The offsets of the first `n` lines depend only on the first `n` declarations.
proof fn lemma_decl_offset_prefix(kind: Seq<char>, ds: Seq<Declaration>, p: Seq<Declaration>, n: int)
    requires
        0 <= n <= p.len(),
        n <= ds.len(),
        forall|j: int| 0 <= j < n ==> p[j] == ds[j],
    ensures
        forall|i: int| 0 <= i <= n ==> #[trigger] decl_offset(kind, ds, i) == decl_offset(kind, p, i),
    decreases n,
{
    if n > 0 {
        lemma_decl_offset_prefix(kind, ds, p, n - 1);
        assert(p[n - 1] == ds[n - 1]);
        assert(decl_offset(kind, ds, n - 1) == decl_offset(kind, p, n - 1));
        assert(decl_offset(kind, ds, n) == decl_offset(kind, p, n));
    }
}

/// Later lines start later.
proof fn lemma_decl_offset_mono(kind: Seq<char>, ds: Seq<Declaration>, i: int, j: int)
    requires
        0 <= i <= j,
    ensures
        decl_offset(kind, ds, i) <= decl_offset(kind, ds, j),
    decreases j - i,
{
    if i < j {
        lemma_decl_offset_mono(kind, ds, i, j - 1);
    }
}

/// Where the line of attribute `i` starts in the layout lines of `fs`.
pub open spec fn layout_offset(fs: Seq<Field>, i: int) -> int
    decreases i,
{
    if i <= 0 {
        0
    } else {
        layout_offset(fs, i - 1) + layout_line((i - 1) as nat, fs[i - 1]).len()
    }
}

/// The layout lines hold one line per attribute, in order: line `i`
/// declares attribute `i` at location `i`, and nothing else is written.
pub proof fn lemma_layout_lines(fs: Seq<Field>)
    ensures
        layout_lines(fs).len() == layout_offset(fs, fs.len() as int),
        forall|i: int|
            0 <= i < fs.len() ==> #[trigger] layout_lines(fs).subrange(layout_offset(fs, i), layout_offset(fs, i + 1))
                == "layout (location = "@ + decimal(i as nat) + ") in "@ + fs[i].typ@ + seq![' '] + fs[i].name@
                + seq![';', '\n'],
    decreases fs.len(),
{
    if fs.len() > 0 {
        let p = fs.drop_last();
        let n = fs.len() - 1;
        lemma_layout_lines(p);
        lemma_layout_offset_prefix(fs, p, n);
        let a = layout_lines(p);
        let b = layout_line(n as nat, fs.last());
        assert(layout_lines(fs) == a + b);
        assert(layout_offset(fs, n) == layout_offset(p, n));
        assert forall|i: int| 0 <= i < fs.len() implies #[trigger] layout_lines(fs).subrange(
            layout_offset(fs, i),
            layout_offset(fs, i + 1),
        ) == "layout (location = "@ + decimal(i as nat) + ") in "@ + fs[i].typ@ + seq![' '] + fs[i].name@
            + seq![';', '\n'] by {
            if i < n {
                lemma_layout_offset_mono(p, i + 1, n);
                lemma_layout_offset_mono(p, i, i + 1);
                lemma_layout_offset_mono(p, 0, i);
                assert(layout_offset(fs, i) == layout_offset(p, i));
                assert(layout_offset(fs, i + 1) == layout_offset(p, i + 1));
                assert(fs[i] == p[i]);
                assert((a + b).subrange(layout_offset(fs, i), layout_offset(fs, i + 1))
                    =~= a.subrange(layout_offset(p, i), layout_offset(p, i + 1)));
            } else {
                assert((a + b).subrange(layout_offset(fs, i), layout_offset(fs, i + 1)) =~= b);
            }
        }
    }
}

/// The offsets of the first `n` layout lines depend only on the first `n` attributes.
proof fn lemma_layout_offset_prefix(fs: Seq<Field>, p: Seq<Field>, n: int)
    requires
        0 <= n <= p.len(),
        n <= fs.len(),
        forall|j: int| 0 <= j < n ==> p[j] == fs[j],
    ensures
        forall|i: int| 0 <= i <= n ==> #[trigger] layout_offset(fs, i) == layout_offset(p, i),
    decreases n,
{
    if n > 0 {
        lemma_layout_offset_prefix(fs, p, n - 1);
        assert(p[n - 1] == fs[n - 1]);
        assert(layout_offset(fs, n - 1) == layout_offset(p, n - 1));
        assert(layout_offset(fs, n) == layout_offset(p, n));
    }
}

/// Later layout lines start later.
proof fn lemma_layout_offset_mono(fs: Seq<Field>, i: int, j: int)
    requires
        0 <= i <= j,
    ensures
        layout_offset(fs, i) <= layout_offset(fs, j),
    decreases j - i,
{
    if i < j {
        lemma_layout_offset_mono(fs, i, j - 1);
    }
}

impl<'a> Declaration<'a> {
    /// Appends `kind typ name`.
    pub fn write_glsl(&self, kind: &str, out: &mut String)
        ensures
            final(out)@ == old(out)@ + decl_text(kind@, *self),
    {
        proof {
            reveal_strlit(" ");
        }
        put(out, kind);
        put(out, " ");
        put(out, self.typ);
        put(out, " ");
        put(out, self.name);
        assert(out@ =~= old(out)@ + decl_text(kind@, *self));
    }
}

/// Appends one line `kind typ name;` per declaration.
fn write_decls(kind: &str, ds: &[Declaration], out: &mut String)
    ensures
        final(out)@ == old(out)@ + decl_lines(kind@, ds@),
{
    let mut i: usize = 0;
    while i < ds.len()
        invariant
            i <= ds@.len(),
            out@ == old(out)@ + decl_lines(kind@, ds@.take(i as int)),
        decreases ds@.len() - i,
    {
        ds[i].write_glsl(kind, out);
        proof {
            reveal_strlit(";\n");
        }
        put(out, ";\n");
        proof {
            let t = ds@.take(i + 1);
            assert(t.drop_last() =~= ds@.take(i as int));
            assert(t.last() == ds@[i as int]);
        }
        i += 1;
        assert(out@ =~= old(out)@ + decl_lines(kind@, ds@.take(i as int)));
    }
    assert(ds@.take(ds@.len() as int) =~= ds@);
}

/// Appends the declaration of each input attribute, at locations 0, 1, ...
fn write_layout(fs: &[Field], out: &mut String)
    ensures
        final(out)@ == old(out)@ + layout_lines(fs@),
{
    let mut i: usize = 0;
    while i < fs.len()
        invariant
            i <= fs@.len(),
            out@ == old(out)@ + layout_lines(fs@.take(i as int)),
        decreases fs@.len() - i,
    {
        let ghost before = out@;
        proof {
            reveal_strlit("layout (location = ");
            reveal_strlit(") in ");
            reveal_strlit(" ");
            reveal_strlit(";\n");
        }
        put(out, "layout (location = ");
        write_decimal(out, i as u64);
        put(out, ") in ");
        put(out, fs[i].typ);
        put(out, " ");
        put(out, fs[i].name);
        put(out, ";\n");
        proof {
            let t = fs@.take(i + 1);
            assert(t.drop_last() =~= fs@.take(i as int));
            assert(t.last() == fs@[i as int]);
            assert(out@ =~= before + layout_line(i as nat, fs@[i as int]));
        }
        i += 1;
        assert(out@ =~= old(out)@ + layout_lines(fs@.take(i as int)));
    }
    assert(fs@.take(fs@.len() as int) =~= fs@);
}

/// Whether `c` may be part of a constant's name.
pub open spec fn is_ident(c: char) -> bool {
    ('a' <= c && c <= 'z') || ('A' <= c && c <= 'Z') || ('0' <= c && c <= '9') || c == '_'
}

/// Whether `c` is the dollar sign that starts a constant's name.
pub open spec fn is_dollar(c: char) -> bool {
    c == '$'
}

/// Whether `c` ends a constant's name.
pub open spec fn ends_name(c: char) -> bool {
    !is_ident(c)
}

/// The index of the first dollar sign in `s`, or the length of `s` when
/// there is none.
pub open spec fn first_dollar(s: Seq<char>) -> nat
    decreases s.len(),
{
    if s.len() == 0 {
        0
    } else if is_dollar(s[0]) {
        0
    } else {
        1 + first_dollar(s.drop_first())
    }
}

/// The first dollar sign is where the first dollar sign stands.
pub proof fn lemma_first_dollar(s: Seq<char>, e: int)
    requires
        0 <= e <= s.len(),
        forall|k: int| 0 <= k < e ==> !is_dollar(#[trigger] s[k]),
        e == s.len() || is_dollar(s[e]),
    ensures
        first_dollar(s) == e,
    decreases s.len(),
{
    if s.len() > 0 && e > 0 {
        assert(!is_dollar(s[0]));
        let t = s.drop_first();
        assert forall|k: int| 0 <= k < e - 1 implies !is_dollar(#[trigger] t[k]) by {
            assert(t[k] == s[k + 1]);
        }
        if e < s.len() {
            assert(t[e - 1] == s[e]);
        }
        lemma_first_dollar(t, e - 1);
    }
}

/// The index of the first char ending a name in `s`, or the length of `s` when
/// there is none.
pub open spec fn first_name_end(s: Seq<char>) -> nat
    decreases s.len(),
{
    if s.len() == 0 {
        0
    } else if ends_name(s[0]) {
        0
    } else {
        1 + first_name_end(s.drop_first())
    }
}

/// The first char ending a name is where the first char ending a name stands.
pub proof fn lemma_first_name_end(s: Seq<char>, e: int)
    requires
        0 <= e <= s.len(),
        forall|k: int| 0 <= k < e ==> !ends_name(#[trigger] s[k]),
        e == s.len() || ends_name(s[e]),
    ensures
        first_name_end(s) == e,
    decreases s.len(),
{
    if s.len() > 0 && e > 0 {
        assert(!ends_name(s[0]));
        let t = s.drop_first();
        assert forall|k: int| 0 <= k < e - 1 implies !ends_name(#[trigger] t[k]) by {
            assert(t[k] == s[k + 1]);
        }
        if e < s.len() {
            assert(t[e - 1] == s[e]);
        }
        lemma_first_name_end(t, e - 1);
    }
}

/// The literal of the first constant named `key`, if any.
pub open spec fn lookup(consts: Seq<(Seq<char>, Seq<char>)>, key: Seq<char>) -> Option<Seq<char>>
    decreases consts.len(),
{
    if consts.len() == 0 {
        None
    } else if consts[0].0 == key {
        Some(consts[0].1)
    } else {
        lookup(consts.drop_first(), key)
    }
}

/// The text of a chunk that followed a dollar sign: the literal of the
/// constant its leading name denotes, then what follows the char that
/// ends the name (that char is dropped).
pub open spec fn chunk_text(c: Seq<char>, consts: Seq<(Seq<char>, Seq<char>)>) -> Seq<char> {
    let j = first_name_end(c) as int;
    let lit = match lookup(consts, c.subrange(0, j)) {
        Some(l) => l,
        None => Seq::empty(),
    };
    if j < c.len() {
        lit + c.subrange(j + 1, c.len() as int)
    } else {
        lit
    }
}

/// Whether the name leading chunk `c` denotes a constant.
pub open spec fn chunk_known(c: Seq<char>, consts: Seq<(Seq<char>, Seq<char>)>) -> bool {
    let j = first_name_end(c) as int;
    lookup(consts, c.subrange(0, j)) is Some
}

/// The text of `s`, which followed a dollar sign: each chunk up to the
/// next dollar sign is filled in.
pub open spec fn expand_rest(s: Seq<char>, consts: Seq<(Seq<char>, Seq<char>)>) -> Seq<char>
    decreases s.len(),
{
    let e = first_dollar(s) as int;
    let text = chunk_text(s.subrange(0, e), consts);
    if e < s.len() {
        text + expand_rest(s.subrange(e + 1, s.len() as int), consts)
    } else {
        text
    }
}

/// Whether every chunk of `s`, which followed a dollar sign, names a constant.
pub open spec fn known_rest(s: Seq<char>, consts: Seq<(Seq<char>, Seq<char>)>) -> bool
    decreases s.len(),
{
    let e = first_dollar(s) as int;
    chunk_known(s.subrange(0, e), consts) && (e < s.len() ==> known_rest(
        s.subrange(e + 1, s.len() as int),
        consts,
    ))
}

/// The body `s` with each `$NAME` replaced by the literal of constant
/// `NAME`; the char right after a name is dropped with it.
pub open spec fn expand(s: Seq<char>, consts: Seq<(Seq<char>, Seq<char>)>) -> Seq<char> {
    let e = first_dollar(s) as int;
    if e < s.len() {
        s.subrange(0, e) + expand_rest(s.subrange(e + 1, s.len() as int), consts)
    } else {
        s
    }
}

/// Whether every `$NAME` of the body `s` names a constant.
pub open spec fn known(s: Seq<char>, consts: Seq<(Seq<char>, Seq<char>)>) -> bool {
    let e = first_dollar(s) as int;
    e < s.len() ==> known_rest(s.subrange(e + 1, s.len() as int), consts)
}

/// The constants as names with literals.
pub open spec fn consts_view(consts: Seq<(&str, String)>) -> Seq<(Seq<char>, Seq<char>)> {
    consts.map_values(|p: (&str, String)| (p.0@, p.1@))
}

/// Passing over constants of other names does not change what a name denotes.
proof fn lemma_lookup_skip(consts: Seq<(Seq<char>, Seq<char>)>, key: Seq<char>, i: int)
    requires
        0 <= i <= consts.len(),
        forall|j: int| 0 <= j < i ==> (#[trigger] consts[j]).0 != key,
    ensures
        lookup(consts, key) == lookup(consts.subrange(i, consts.len() as int), key),
    decreases i,
{
    if i > 0 {
        let t = consts.drop_first();
        assert forall|j: int| 0 <= j < i - 1 implies (#[trigger] t[j]).0 != key by {
            assert(t[j] == consts[j + 1]);
        }
        lemma_lookup_skip(t, key, i - 1);
        assert(t.subrange(i - 1, t.len() as int) =~= consts.subrange(i, consts.len() as int));
    } else {
        assert(consts.subrange(0, consts.len() as int) =~= consts);
    }
}

/// The literal of the first constant named `key`, if any.
fn lookup_const<'c>(consts: &'c [(&str, String)], key: &str) -> (r: Option<&'c String>)
    ensures
        match r {
            Some(l) => lookup(consts_view(consts@), key@) == Some(l@),
            None => lookup(consts_view(consts@), key@) is None,
        },
{
    let ghost cv = consts_view(consts@);
    let k = key.to_owned();
    let mut i: usize = 0;
    while i < consts.len()
        invariant
            i <= consts@.len(),
            cv == consts_view(consts@),
            k@ == key@,
            forall|j: int| 0 <= j < i ==> (#[trigger] cv[j]).0 != key@,
        decreases consts@.len() - i,
    {
        let name = consts[i].0.to_owned();
        if name == k {
            proof {
                lemma_lookup_skip(cv, key@, i as int);
                assert(cv.subrange(i as int, cv.len() as int)[0] == cv[i as int]);
            }
            return Some(&consts[i].1);
        }
        i += 1;
    }
    proof {
        lemma_lookup_skip(cv, key@, i as int);
        assert(cv.subrange(i as int, cv.len() as int).len() == 0);
    }
    None
}

/// Whether `c` may be part of a constant's name.
fn is_ident_char(c: char) -> (r: bool)
    ensures
        r == is_ident(c),
{
    ('a' <= c && c <= 'z') || ('A' <= c && c <= 'Z') || ('0' <= c && c <= '9') || c == '_'
}

/// The index of the first dollar sign of `src` at or after `from`, or `n`.
fn find_dollar(src: &str, n: usize, from: usize) -> (r: usize)
    requires
        n == src@.len(),
        from <= n,
    ensures
        from <= r <= n,
        forall|k: int| from <= k < r ==> !is_dollar(#[trigger] src@[k]),
        r < n ==> is_dollar(src@[r as int]),
{
    let mut i = from;
    while i < n
        invariant
            from <= i <= n,
            n == src@.len(),
            forall|k: int| from <= k < i ==> !is_dollar(#[trigger] src@[k]),
        decreases n - i,
    {
        if src.get_char(i) == '$' {
            return i;
        }
        i += 1;
    }
    i
}

/// The index of the first char of `src` in `from..to` that ends a name, or `to`.
fn find_name_end(src: &str, from: usize, to: usize) -> (r: usize)
    requires
        from <= to <= src@.len(),
    ensures
        from <= r <= to,
        forall|k: int| from <= k < r ==> !ends_name(#[trigger] src@[k]),
        r < to ==> ends_name(src@[r as int]),
{
    let mut i = from;
    while i < to
        invariant
            from <= i <= to <= src@.len(),
            forall|k: int| from <= k < i ==> !ends_name(#[trigger] src@[k]),
        decreases to - i,
    {
        if !is_ident_char(src.get_char(i)) {
            return i;
        }
        i += 1;
    }
    i
}

impl<'a> Shader<'a> {
    /// The version line and the declarations: input attributes, uniforms,
    /// inputs and outputs.
    pub open spec fn header(self) -> Seq<char> {
        "#version 410"@ + seq!['\n'] + layout_lines(self.layout@) + decl_lines("uniform"@, self.uniforms@)
            + decl_lines("in"@, self.in_vars@) + decl_lines("out"@, self.out_vars@)
    }

    /// Appends the GLSL source of the shader: its header, then its body with
    /// every `$NAME` filled in. Every name must denote a constant.
    pub fn write_glsl(&self, out: &mut String)
        requires
            known(self.src@, consts_view(self.consts@)),
        ensures
            final(out)@ == old(out)@ + self.header() + expand(self.src@, consts_view(self.consts@)),
    {
        let ghost cv = consts_view(self.consts@);
        proof {
            reveal_strlit("#version 410\n");
            reveal_strlit("#version 410");
        }
        put(out, "#version 410\n");
        write_layout(self.layout, out);
        write_decls("uniform", self.uniforms, out);
        write_decls("in", self.in_vars, out);
        write_decls("out", self.out_vars, out);
        assert(out@ =~= old(out)@ + self.header());
        let ghost head = out@;
        let src = self.src;
        let n = src.unicode_len();
        let e0 = find_dollar(src, n, 0);
        proof {
            lemma_first_dollar(src@, e0 as int);
        }
        put(out, src.substring_char(0, e0));
        let mut i = e0;
        while i < n
            invariant
                n == src@.len(),
                src == self.src,
                cv == consts_view(self.consts@),
                e0 <= i <= n,
                e0 == first_dollar(src@),
                i < n ==> is_dollar(src@[i as int]) && known_rest(src@.subrange(i + 1, n as int), cv),
                out@ + (if i < n {
                    expand_rest(src@.subrange(i + 1, n as int), cv)
                } else {
                    Seq::empty()
                }) == head + expand(src@, cv),
            decreases n - i,
        {
            let ghost s = src@.subrange(i + 1, n as int);
            let start = i + 1;
            let e = find_dollar(src, n, start);
            proof {
                assert forall|k: int| 0 <= k < e - start implies !is_dollar(#[trigger] s[k]) by {
                    assert(s[k] == src@[start + k]);
                }
                if e < n {
                    assert(s[e - start] == src@[e as int]);
                }
                lemma_first_dollar(s, e - start);
            }
            let j = find_name_end(src, start, e);
            let ghost c = s.subrange(0, e - start);
            proof {
                assert(c =~= src@.subrange(start as int, e as int));
                assert forall|k: int| 0 <= k < j - start implies !ends_name(#[trigger] c[k]) by {
                    assert(c[k] == src@[start + k]);
                }
                if j < e {
                    assert(c[j - start] == src@[j as int]);
                }
                lemma_first_name_end(c, j - start);
                assert(c.subrange(0, j - start) =~= src@.subrange(start as int, j as int));
            }
            let key = src.substring_char(start, j);
            let lit = match lookup_const(self.consts, key) {
                Some(l) => l,
                None => {
                    proof {
                        assert(chunk_known(c, cv));
                    }
                    return;
                },
            };
            put(out, lit.as_str());
            if j < e {
                proof {
                    assert(c.subrange(j - start + 1, c.len() as int) =~= src@.subrange(j + 1, e as int));
                }
                put(out, src.substring_char(j + 1, e));
            }
            proof {
                if e < n {
                    assert(s.subrange(e - start + 1, s.len() as int) =~= src@.subrange(e + 1, n as int));
                }
            }
            i = e;
        }
        proof {
            if e0 < n {
            } else {
                assert(src@.subrange(0, e0 as int) =~= src@);
            }
        }
    }
}

} // verus!
