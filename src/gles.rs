//! The table of graphics API entry points, resolved once at startup.
//!
//! Each entry point is looked up by its symbol name through a loader that the
//! windowing layer provides. A name the loader does not know resolves to a
//! null address; such an entry stays unloaded, and calling it is fatal.
use vstd::prelude::*;

verus! {

/// The number of entry points the renderer uses.
pub const GL_FN_COUNT: usize = 36;

/// An entry point of the graphics API that the renderer calls.
#[derive(Clone, Copy, Debug, PartialEq, Eq, Structural)]
pub enum GlFn {
    ActiveTexture,
    AttachShader,
    BindAttribLocation,
    BindBuffer,
    BindTexture,
    BindVertexArrayOES,
    BufferData,
    Clear,
    ClearColor,
    CompileShader,
    CreateProgram,
    CreateShader,
    DebugMessageCallbackKHR,
    DeleteBuffers,
    DeleteProgram,
    DeleteShader,
    DeleteTextures,
    DeleteVertexArraysOES,
    DetachShader,
    DrawElements,
    Enable,
    EnableVertexAttribArray,
    GenBuffers,
    GenTextures,
    GenVertexArraysOES,
    GetUniformLocation,
    LinkProgram,
    PixelStorei,
    ShaderSource,
    TexImage2D,
    TexParameteri,
    Uniform1i,
    UniformMatrix4fv,
    UseProgram,
    VertexAttribPointer,
    Viewport,
}

/// The symbol name of an entry point.
pub open spec fn spec_symbol(f: GlFn) -> &'static str {
    match f {
        GlFn::ActiveTexture => "glActiveTexture",
        GlFn::AttachShader => "glAttachShader",
        GlFn::BindAttribLocation => "glBindAttribLocation",
        GlFn::BindBuffer => "glBindBuffer",
        GlFn::BindTexture => "glBindTexture",
        GlFn::BindVertexArrayOES => "glBindVertexArrayOES",
        GlFn::BufferData => "glBufferData",
        GlFn::Clear => "glClear",
        GlFn::ClearColor => "glClearColor",
        GlFn::CompileShader => "glCompileShader",
        GlFn::CreateProgram => "glCreateProgram",
        GlFn::CreateShader => "glCreateShader",
        GlFn::DebugMessageCallbackKHR => "glDebugMessageCallbackKHR",
        GlFn::DeleteBuffers => "glDeleteBuffers",
        GlFn::DeleteProgram => "glDeleteProgram",
        GlFn::DeleteShader => "glDeleteShader",
        GlFn::DeleteTextures => "glDeleteTextures",
        GlFn::DeleteVertexArraysOES => "glDeleteVertexArraysOES",
        GlFn::DetachShader => "glDetachShader",
        GlFn::DrawElements => "glDrawElements",
        GlFn::Enable => "glEnable",
        GlFn::EnableVertexAttribArray => "glEnableVertexAttribArray",
        GlFn::GenBuffers => "glGenBuffers",
        GlFn::GenTextures => "glGenTextures",
        GlFn::GenVertexArraysOES => "glGenVertexArraysOES",
        GlFn::GetUniformLocation => "glGetUniformLocation",
        GlFn::LinkProgram => "glLinkProgram",
        GlFn::PixelStorei => "glPixelStorei",
        GlFn::ShaderSource => "glShaderSource",
        GlFn::TexImage2D => "glTexImage2D",
        GlFn::TexParameteri => "glTexParameteri",
        GlFn::Uniform1i => "glUniform1i",
        GlFn::UniformMatrix4fv => "glUniformMatrix4fv",
        GlFn::UseProgram => "glUseProgram",
        GlFn::VertexAttribPointer => "glVertexAttribPointer",
        GlFn::Viewport => "glViewport",
    }
}

/// The position of an entry point in the table.
pub open spec fn spec_index(f: GlFn) -> int {
    match f {
        GlFn::ActiveTexture => 0,
        GlFn::AttachShader => 1,
        GlFn::BindAttribLocation => 2,
        GlFn::BindBuffer => 3,
        GlFn::BindTexture => 4,
        GlFn::BindVertexArrayOES => 5,
        GlFn::BufferData => 6,
        GlFn::Clear => 7,
        GlFn::ClearColor => 8,
        GlFn::CompileShader => 9,
        GlFn::CreateProgram => 10,
        GlFn::CreateShader => 11,
        GlFn::DebugMessageCallbackKHR => 12,
        GlFn::DeleteBuffers => 13,
        GlFn::DeleteProgram => 14,
        GlFn::DeleteShader => 15,
        GlFn::DeleteTextures => 16,
        GlFn::DeleteVertexArraysOES => 17,
        GlFn::DetachShader => 18,
        GlFn::DrawElements => 19,
        GlFn::Enable => 20,
        GlFn::EnableVertexAttribArray => 21,
        GlFn::GenBuffers => 22,
        GlFn::GenTextures => 23,
        GlFn::GenVertexArraysOES => 24,
        GlFn::GetUniformLocation => 25,
        GlFn::LinkProgram => 26,
        GlFn::PixelStorei => 27,
        GlFn::ShaderSource => 28,
        GlFn::TexImage2D => 29,
        GlFn::TexParameteri => 30,
        GlFn::Uniform1i => 31,
        GlFn::UniformMatrix4fv => 32,
        GlFn::UseProgram => 33,
        GlFn::VertexAttribPointer => 34,
        GlFn::Viewport => 35,
    }
}

impl GlFn {
    /// The symbol name the loader is asked for.
    pub fn symbol(self) -> (r: &'static str)
        ensures
            r == spec_symbol(self),
    {
        match self {
            GlFn::ActiveTexture => "glActiveTexture",
            GlFn::AttachShader => "glAttachShader",
            GlFn::BindAttribLocation => "glBindAttribLocation",
            GlFn::BindBuffer => "glBindBuffer",
            GlFn::BindTexture => "glBindTexture",
            GlFn::BindVertexArrayOES => "glBindVertexArrayOES",
            GlFn::BufferData => "glBufferData",
            GlFn::Clear => "glClear",
            GlFn::ClearColor => "glClearColor",
            GlFn::CompileShader => "glCompileShader",
            GlFn::CreateProgram => "glCreateProgram",
            GlFn::CreateShader => "glCreateShader",
            GlFn::DebugMessageCallbackKHR => "glDebugMessageCallbackKHR",
            GlFn::DeleteBuffers => "glDeleteBuffers",
            GlFn::DeleteProgram => "glDeleteProgram",
            GlFn::DeleteShader => "glDeleteShader",
            GlFn::DeleteTextures => "glDeleteTextures",
            GlFn::DeleteVertexArraysOES => "glDeleteVertexArraysOES",
            GlFn::DetachShader => "glDetachShader",
            GlFn::DrawElements => "glDrawElements",
            GlFn::Enable => "glEnable",
            GlFn::EnableVertexAttribArray => "glEnableVertexAttribArray",
            GlFn::GenBuffers => "glGenBuffers",
            GlFn::GenTextures => "glGenTextures",
            GlFn::GenVertexArraysOES => "glGenVertexArraysOES",
            GlFn::GetUniformLocation => "glGetUniformLocation",
            GlFn::LinkProgram => "glLinkProgram",
            GlFn::PixelStorei => "glPixelStorei",
            GlFn::ShaderSource => "glShaderSource",
            GlFn::TexImage2D => "glTexImage2D",
            GlFn::TexParameteri => "glTexParameteri",
            GlFn::Uniform1i => "glUniform1i",
            GlFn::UniformMatrix4fv => "glUniformMatrix4fv",
            GlFn::UseProgram => "glUseProgram",
            GlFn::VertexAttribPointer => "glVertexAttribPointer",
            GlFn::Viewport => "glViewport",
        }
    }

    /// The position of this entry point in the table.
    pub fn index(self) -> (r: usize)
        ensures
            r == spec_index(self),
            r < GL_FN_COUNT,
    {
        match self {
            GlFn::ActiveTexture => 0,
            GlFn::AttachShader => 1,
            GlFn::BindAttribLocation => 2,
            GlFn::BindBuffer => 3,
            GlFn::BindTexture => 4,
            GlFn::BindVertexArrayOES => 5,
            GlFn::BufferData => 6,
            GlFn::Clear => 7,
            GlFn::ClearColor => 8,
            GlFn::CompileShader => 9,
            GlFn::CreateProgram => 10,
            GlFn::CreateShader => 11,
            GlFn::DebugMessageCallbackKHR => 12,
            GlFn::DeleteBuffers => 13,
            GlFn::DeleteProgram => 14,
            GlFn::DeleteShader => 15,
            GlFn::DeleteTextures => 16,
            GlFn::DeleteVertexArraysOES => 17,
            GlFn::DetachShader => 18,
            GlFn::DrawElements => 19,
            GlFn::Enable => 20,
            GlFn::EnableVertexAttribArray => 21,
            GlFn::GenBuffers => 22,
            GlFn::GenTextures => 23,
            GlFn::GenVertexArraysOES => 24,
            GlFn::GetUniformLocation => 25,
            GlFn::LinkProgram => 26,
            GlFn::PixelStorei => 27,
            GlFn::ShaderSource => 28,
            GlFn::TexImage2D => 29,
            GlFn::TexParameteri => 30,
            GlFn::Uniform1i => 31,
            GlFn::UniformMatrix4fv => 32,
            GlFn::UseProgram => 33,
            GlFn::VertexAttribPointer => 34,
            GlFn::Viewport => 35,
        }
    }

    /// Every entry point, in table order.
    pub fn all() -> (r: Vec<GlFn>)
        ensures
            r@.len() == GL_FN_COUNT,
            forall|k: int| 0 <= k < GL_FN_COUNT ==> spec_index(#[trigger] r@[k]) == k,
            forall|f: GlFn| 0 <= #[trigger] spec_index(f) < GL_FN_COUNT && r@[spec_index(f)] == f,
    {
        vec![
            GlFn::ActiveTexture,
            GlFn::AttachShader,
            GlFn::BindAttribLocation,
            GlFn::BindBuffer,
            GlFn::BindTexture,
            GlFn::BindVertexArrayOES,
            GlFn::BufferData,
            GlFn::Clear,
            GlFn::ClearColor,
            GlFn::CompileShader,
            GlFn::CreateProgram,
            GlFn::CreateShader,
            GlFn::DebugMessageCallbackKHR,
            GlFn::DeleteBuffers,
            GlFn::DeleteProgram,
            GlFn::DeleteShader,
            GlFn::DeleteTextures,
            GlFn::DeleteVertexArraysOES,
            GlFn::DetachShader,
            GlFn::DrawElements,
            GlFn::Enable,
            GlFn::EnableVertexAttribArray,
            GlFn::GenBuffers,
            GlFn::GenTextures,
            GlFn::GenVertexArraysOES,
            GlFn::GetUniformLocation,
            GlFn::LinkProgram,
            GlFn::PixelStorei,
            GlFn::ShaderSource,
            GlFn::TexImage2D,
            GlFn::TexParameteri,
            GlFn::Uniform1i,
            GlFn::UniformMatrix4fv,
            GlFn::UseProgram,
            GlFn::VertexAttribPointer,
            GlFn::Viewport,
        ]
    }
}

/// An entry point as the loader resolved it.
pub struct FnPtr {
    address: usize,
    is_loaded: bool,
}

impl View for FnPtr {
    /// The address, or None when the loader did not find the symbol.
    type V = Option<usize>;

    closed spec fn view(&self) -> Option<usize> {
        if self.is_loaded {
            Some(self.address)
        } else {
            None
        }
    }
}

/// What a loader's answer makes of an entry point: zero means not found.
pub open spec fn resolved(address: usize) -> Option<usize> {
    if address == 0 {
        None
    } else {
        Some(address)
    }
}

impl FnPtr {
    /// An entry point from the address a loader returned.
    pub fn new(address: usize) -> (r: FnPtr)
        ensures
            r@ == resolved(address),
    {
        FnPtr { address, is_loaded: address != 0 }
    }

    /// Whether the loader found the entry point.
    pub fn is_loaded(&self) -> (r: bool)
        ensures
            r == self@ is Some,
    {
        self.is_loaded
    }

    /// The address to call, when the entry point was found.
    pub fn address(&self) -> (r: Option<usize>)
        ensures
            r == self@,
    {
        if self.is_loaded {
            Some(self.address)
        } else {
            None
        }
    }
}

/// `p` is what `loadfn` may answer when asked for the symbol of `f`.
pub open spec fn loaded_by<F: Fn(&'static str) -> usize>(loadfn: F, f: GlFn, p: Option<usize>) -> bool {
    exists|a: usize| #[trigger] loadfn.ensures((spec_symbol(f),), a) && p == resolved(a)
}

/// The resolved entry points, one per `GlFn`.
pub struct Gles2 {
    entries: Vec<FnPtr>,
}

impl View for Gles2 {
    type V = Seq<Option<usize>>;

    closed spec fn view(&self) -> Seq<Option<usize>> {
        self.entries@.map_values(|p: FnPtr| p@)
    }
}

impl Gles2 {
    /// Resolves every entry point by asking `loadfn` for its symbol name,
    /// each name once, in table order.
    pub fn load_with<F: Fn(&'static str) -> usize>(loadfn: F) -> (r: Gles2)
        requires
            forall|s: &'static str| loadfn.requires((s,)),
        ensures
            r@.len() == GL_FN_COUNT,
            forall|f: GlFn| #[trigger] loaded_by(loadfn, f, r@[spec_index(f)]),
    {
        let all = GlFn::all();
        let mut entries: Vec<FnPtr> = Vec::new();
        let ghost mut addresses: Seq<usize> = Seq::empty();
        let mut k: usize = 0;
        while k < all.len()
            invariant
                all@.len() == GL_FN_COUNT,
                forall|f: GlFn| 0 <= #[trigger] spec_index(f) < GL_FN_COUNT && all@[spec_index(f)] == f,
                forall|s: &'static str| loadfn.requires((s,)),
                k <= all@.len(),
                entries@.len() == k,
                addresses.len() == k,
                forall|j: int| 0 <= j < k ==> (#[trigger] entries@[j])@ == resolved(addresses[j]),
                forall|j: int|
                    0 <= j < k ==> loadfn.ensures((spec_symbol(#[trigger] all@[j]),), addresses[j]),
            decreases all@.len() - k,
        {
            let f = all[k];
            let a = loadfn(f.symbol());
            entries.push(FnPtr::new(a));
            proof {
                addresses = addresses.push(a);
            }
            k += 1;
        }
        let r = Gles2 { entries };
        assert forall|f: GlFn| #[trigger] loaded_by(loadfn, f, r@[spec_index(f)]) by {
            let j = spec_index(f);
            assert(r@[j] == entries@[j]@);
            assert(loadfn.ensures((spec_symbol(f),), addresses[j]));
        }
        r
    }

    /// The entry point `f`.
    pub fn get(&self, f: GlFn) -> (r: &FnPtr)
        requires
            self@.len() == GL_FN_COUNT,
        ensures
            r@ == self@[spec_index(f)],
    {
        &self.entries[f.index()]
    }
}

} // verus!
