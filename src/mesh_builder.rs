//! Vertex layouts, the per-frame vertex builder and the mesh that receives
//! its upload.
use vstd::prelude::*;
use crate::geometry::Vec3;

verus! {

/// One vertex attribute: its shader index, its number of 32-bit
/// components, and its byte offset within a vertex.
#[derive(Clone, Copy, Debug, PartialEq, Eq, Structural)]
pub struct VertexAttributeBinding {
    pub index: u32,
    pub width: i32,
    pub offset: u32,
}

/// The byte layout of an uploaded vertex: its total size and its
/// attributes in order.
pub struct VertexLayout {
    pub size: u32,
    pub attributes: Vec<VertexAttributeBinding>,
}

impl View for VertexLayout {
    type V = (u32, Seq<VertexAttributeBinding>);

    open spec fn view(&self) -> (u32, Seq<VertexAttributeBinding>) {
        (self.size, self.attributes@)
    }
}

impl VertexLayout {
    /// A layout of `size` bytes per vertex with no attributes yet.
    pub fn new(size: u32) -> (r: VertexLayout)
        ensures
            r@ == (size, Seq::<VertexAttributeBinding>::empty()),
    {
        VertexLayout { size, attributes: Vec::new() }
    }

    /// The layout of an empty mesh.
    pub fn null() -> (r: VertexLayout)
        ensures
            r@ == (0u32, Seq::<VertexAttributeBinding>::empty()),
    {
        VertexLayout { size: 0, attributes: Vec::new() }
    }

    /// The same layout with one more attribute at the end.
    pub fn add_binding(self, index: u32, width: i32, offset: u32) -> (r: VertexLayout)
        ensures
            r@ == (self@.0, self@.1.push(VertexAttributeBinding { index, width, offset })),
    {
        let mut this = self;
        this.attributes.push(VertexAttributeBinding { index, width, offset });
        this
    }
}

/// A vertex type that can be uploaded: it names its byte layout.
pub trait Vertex: Copy + Sized {
    spec fn layout_spec() -> (u32, Seq<VertexAttributeBinding>);

    fn get_layout() -> (r: VertexLayout)
        ensures
            r@ == Self::layout_spec(),
    ;
}

/// A vertex holding a position alone.
#[derive(Clone, Copy, Debug, PartialEq, Eq, Structural)]
pub struct DefaultVertex {
    pub pos: Vec3,
}

impl DefaultVertex {
    pub fn new(pos: Vec3) -> (r: DefaultVertex)
        ensures
            r.pos == pos,
    {
        DefaultVertex { pos }
    }
}

impl Vertex for DefaultVertex {
    open spec fn layout_spec() -> (u32, Seq<VertexAttributeBinding>) {
        (12u32, seq![VertexAttributeBinding { index: 0, width: 3, offset: 0 }])
    }

    fn get_layout() -> (r: VertexLayout) {
        let r = VertexLayout::new(12).add_binding(0, 3, 0);
        assert(r@.1 =~= seq![VertexAttributeBinding { index: 0, width: 3, offset: 0 }]);
        r
    }
}

/// A backend vertex buffer: its handle, the number of vertices uploaded
/// into it and their layout.
pub struct Mesh {
    pub vbo: u32,
    pub count: u32,
    pub layout: VertexLayout,
}

impl Mesh {
    /// An empty mesh over the backend buffer `vbo`.
    pub fn new(vbo: u32) -> (r: Mesh)
        ensures
            r.vbo == vbo,
            r.count == 0,
            r.layout@ == (0u32, Seq::<VertexAttributeBinding>::empty()),
    {
        Mesh { vbo, count: 0, layout: VertexLayout::null() }
    }
}

/// The two triangles `(v0, v1, v2)` and `(v0, v2, v3)` of a quad.
pub open spec fn quad_spec<T>(vs: Seq<T>) -> Seq<T> {
    seq![vs[0], vs[1], vs[2], vs[0], vs[2], vs[3]]
}

/// The first `m` triangles of the fan from `vs[0]`: triangle `t` is
/// `(vs[0], vs[t + 1], vs[t + 2])`.
pub open spec fn fan_prefix<T>(vs: Seq<T>, m: int) -> Seq<T> {
    Seq::new(
        (3 * m) as nat,
        |k: int|
            if k % 3 == 0 {
                vs[0]
            } else if k % 3 == 1 {
                vs[k / 3 + 1]
            } else {
                vs[k / 3 + 2]
            },
    )
}

/// The fan triangulation of a convex polygon: `vs.len() - 2` triangles.
pub open spec fn fan_spec<T>(vs: Seq<T>) -> Seq<T> {
    fan_prefix(vs, vs.len() - 2)
}

/// The vertices of the frame being built.
pub struct MeshBuilder<T: Vertex> {
    verts: Vec<T>,
}

impl<T: Vertex> View for MeshBuilder<T> {
    type V = Seq<T>;

    closed spec fn view(&self) -> Seq<T> {
        self.verts@
    }
}

impl<T: Vertex> MeshBuilder<T> {
    pub fn new() -> (r: MeshBuilder<T>)
        ensures
            r@ == Seq::<T>::empty(),
    {
        MeshBuilder { verts: Vec::new() }
    }

    /// Forgets the vertices of the previous frame.
    pub fn clear(&mut self)
        ensures
            final(self)@ == Seq::<T>::empty(),
    {
        self.verts.clear();
    }

    /// The vertices built so far, in order.
    pub fn verts(&self) -> (r: &Vec<T>)
        ensures
            r@ == self@,
    {
        &self.verts
    }

    /// Records in `mesh` the layout of `T` and the number of vertices built;
    /// the builder is left as it is.
    pub fn upload_to(&self, mesh: &mut Mesh)
        requires
            self@.len() <= u32::MAX,
        ensures
            final(mesh).vbo == old(mesh).vbo,
            final(mesh).count == self@.len(),
            final(mesh).layout@ == T::layout_spec(),
    {
        mesh.layout = T::get_layout();
        mesh.count = self.verts.len() as u32;
    }

    pub fn add_vert(&mut self, v: T)
        ensures
            final(self)@ == old(self)@.push(v),
    {
        self.verts.push(v);
    }

    /// Appends the two triangles of the quad `vs[0..4]`.
    pub fn add_quad(&mut self, vs: &[T])
        requires
            vs@.len() >= 4,
        ensures
            final(self)@ == old(self)@ + quad_spec(vs@),
    {
        self.verts.push(vs[0]);
        self.verts.push(vs[1]);
        self.verts.push(vs[2]);

        self.verts.push(vs[0]);
        self.verts.push(vs[2]);
        self.verts.push(vs[3]);
        assert(self.verts@ =~= old(self)@ + quad_spec(vs@));
    }

    /// Appends the fan triangulation of the convex polygon `vs`.
    pub fn add_convex_poly(&mut self, vs: &[T])
        requires
            vs@.len() >= 3,
        ensures
            final(self)@ == old(self)@ + fan_spec(vs@),
    {
        let n: usize = vs.len();
        let mut i: usize = 1;
        assert(fan_prefix(vs@, 0) =~= Seq::<T>::empty());
        assert(self.verts@ =~= old(self)@ + fan_prefix(vs@, 0));
        while i < n - 1
            invariant
                1 <= i <= n - 1,
                n == vs@.len(),
                self.verts@ == old(self)@ + fan_prefix(vs@, i - 1),
            decreases n - i,
        {
            let ghost before = self.verts@;
            self.verts.push(vs[0]);
            self.verts.push(vs[i]);
            self.verts.push(vs[i + 1]);
            assert(fan_prefix(vs@, i as int) =~= fan_prefix(vs@, i - 1) + seq![
                vs@[0],
                vs@[i as int],
                vs@[i + 1],
            ]);
            assert(self.verts@ =~= old(self)@ + fan_prefix(vs@, i as int));
            i = i + 1;
        }
    }
}

} // verus!
