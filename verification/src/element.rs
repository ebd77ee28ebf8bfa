//! Render elements that replace the default texture shader.

use vstd::prelude::*;

verus! {

/// Handle to a compiled texture-shader program.
#[derive(Clone, Copy, Debug, PartialEq, Eq, Structural)]
pub struct Gles2TexProgram {
    /// The program object's name.
    pub program: u32,
}

/// One shader parameter: a name and the raw scalar words handed to the
/// shader call.  The element stores uniforms; it never interprets them.
#[derive(Clone, Debug)]
pub struct Uniform {
    /// Name of the uniform in the shader source.
    pub name: String,
    /// The value's scalar words, in declaration order.
    pub words: Vec<u32>,
}

/// An axis-aligned rectangle in logical coordinates.
#[derive(Clone, Copy, Debug, PartialEq, Eq, Structural)]
pub struct Rectangle {
    /// Horizontal position of the top-left corner.
    pub x: i32,
    /// Vertical position of the top-left corner.
    pub y: i32,
    /// Width of the rectangle.
    pub width: i32,
    /// Height of the rectangle.
    pub height: i32,
}

/// Wrapping render element that replaces the default texture shader used for
/// an existing element.
pub struct TextureShaderWrapperElement<E> {
    /// The replacement shader program.
    pub shader: Gles2TexProgram,
    /// Overriding opaque regions, or `None` to pass the wrapped element's
    /// regions through.
    pub opaque_regions: Option<Vec<Rectangle>>,
    /// The uniforms handed to the replacement shader.
    pub additional_uniforms: Vec<Uniform>,
    /// The wrapped element.
    pub element: E,
}

impl<E> TextureShaderWrapperElement<E> {
    /// Wraps `element` so that it is drawn with `shader` instead of the
    /// default texture shader.
    ///
    /// `opaque_regions` overrides the element's regions, should the shader
    /// change them; `None` passes the wrapped element's regions through.
    pub fn new(
        shader: Gles2TexProgram,
        additional_uniforms: Vec<Uniform>,
        opaque_regions: Option<Vec<Rectangle>>,
        element: E,
    ) -> (r: Self)
        ensures
            r.shader == shader,
            r.additional_uniforms == additional_uniforms,
            r.opaque_regions == opaque_regions,
            r.element == element,
    {
        TextureShaderWrapperElement { shader, additional_uniforms, opaque_regions, element }
    }

    /// Overrides the opaque regions; `None` passes the wrapped element's
    /// regions through again.
    pub fn update_opaque_regions(&mut self, opaque_regions: Option<Vec<Rectangle>>)
        ensures
            final(self).opaque_regions == opaque_regions,
            final(self).shader == old(self).shader,
            final(self).additional_uniforms == old(self).additional_uniforms,
            final(self).element == old(self).element,
    {
        self.opaque_regions = opaque_regions;
    }

    /// Replaces the stored uniforms wholesale; partial updates are not
    /// possible.
    pub fn update_uniforms(&mut self, additional_uniforms: Vec<Uniform>)
        ensures
            final(self).additional_uniforms == additional_uniforms,
            final(self).shader == old(self).shader,
            final(self).opaque_regions == old(self).opaque_regions,
            final(self).element == old(self).element,
    {
        self.additional_uniforms = additional_uniforms;
    }
}

} // verus!
