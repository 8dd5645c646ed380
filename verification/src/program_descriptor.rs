//! Which shader sources make up a shader program, and which program serves
//! which way of showing a scene.
use vstd::prelude::*;

verus! {

/// The position of a shader program in the list of all programs.
pub type ShaderProgramId = usize;

/// The programs of one material, one for each way of showing it.
#[derive(Debug, Copy, Clone)]
pub struct ShaderProgramIdGroup {
    pub normal_3D: ShaderProgramId,
    pub normal_3D_skeleton: ShaderProgramId,
    pub degenerate_3D: ShaderProgramId,
    pub degenerate_3D_skeleton: ShaderProgramId,
    pub degenerate_4D: ShaderProgramId,
    pub degenerate_4D_skeleton: ShaderProgramId,
}

/// The paths of the shader sources of one program.
#[derive(Debug, Copy, Clone, PartialEq, Eq)]
pub struct ProgramDescriptor {
    pub vertex_shader_path: &'static str,
    pub fragment_shader_path: &'static str,
    pub geometry_shader_path: Option<&'static str>,
}

/// The descriptors of the programs of one material.
#[derive(Debug, Clone, PartialEq, Eq)]
pub struct ProgramDescriptorGroup {
    pub normal_3D: ProgramDescriptor,
    pub normal_3D_skeleton: ProgramDescriptor,
    pub degenerate_3D: ProgramDescriptor,
    pub degenerate_3D_skeleton: ProgramDescriptor,
    pub degenerate_4D: ProgramDescriptor,
    pub degenerate_4D_skeleton: ProgramDescriptor,
}

/// `str`'s `==`: whether the two strings hold the same characters.
#[verifier::external_body]
fn str_equal(a: &str, b: &str) -> (equal: bool)
    ensures
        equal == (a@ == b@),
{
    a == b
}

impl ProgramDescriptorGroup {
    /// The group that uses one descriptor for every way of showing.
    pub fn new_trivial(descriptor: ProgramDescriptor) -> (group: Self)
        ensures
            group.normal_3D == descriptor,
            group.normal_3D_skeleton == descriptor,
            group.degenerate_3D == descriptor,
            group.degenerate_3D_skeleton == descriptor,
            group.degenerate_4D == descriptor,
            group.degenerate_4D_skeleton == descriptor,
    {
        ProgramDescriptorGroup {
            normal_3D: descriptor,
            normal_3D_skeleton: descriptor,
            degenerate_3D: descriptor,
            degenerate_3D_skeleton: descriptor,
            degenerate_4D: descriptor,
            degenerate_4D_skeleton: descriptor,
        }
    }
}

impl ProgramDescriptor {
    /// A program without geometry shader.
    pub fn new(vertex_shader_path: &'static str, fragment_shader_path: &'static str) -> (descriptor:
        Self)
        ensures
            descriptor.vertex_shader_path == vertex_shader_path,
            descriptor.fragment_shader_path == fragment_shader_path,
            descriptor.geometry_shader_path is None,
    {
        ProgramDescriptor { vertex_shader_path, fragment_shader_path, geometry_shader_path: None }
    }

    /// A program with a geometry shader.
    pub fn new_with_geometry(
        vertex_shader_path: &'static str,
        fragment_shader_path: &'static str,
        geometry_shader_path: &'static str,
    ) -> (descriptor: Self)
        ensures
            descriptor.vertex_shader_path == vertex_shader_path,
            descriptor.fragment_shader_path == fragment_shader_path,
            descriptor.geometry_shader_path == Some(geometry_shader_path),
    {
        ProgramDescriptor {
            vertex_shader_path,
            fragment_shader_path,
            geometry_shader_path: Some(geometry_shader_path),
        }
    }

    /// Whether the two programs have the same vertex shader and the same
    /// fragment shader; the geometry shader is not looked at.
    pub open spec fn spec_is_equal(self, other: Self) -> bool {
        self.vertex_shader_path@ == other.vertex_shader_path@ && self.fragment_shader_path@
            == other.fragment_shader_path@
    }

    /// Whether the two programs have the same vertex shader and the same
    /// fragment shader; the geometry shader is not looked at.
    pub fn is_equal(&self, other: &Self) -> (equal: bool)
        ensures
            equal == self.spec_is_equal(*other),
    {
        str_equal(self.vertex_shader_path, other.vertex_shader_path) && str_equal(
            self.fragment_shader_path,
            other.fragment_shader_path,
        )
    }
}

/// Some descriptor of the table is equal to `program_descriptor`.
pub open spec fn has_program(
    program_descriptors: Seq<ProgramDescriptor>,
    program_descriptor: ProgramDescriptor,
) -> bool {
    exists|i: int|
        0 <= i < program_descriptors.len() && (#[trigger] program_descriptors[i]).spec_is_equal(
            program_descriptor,
        )
}

/// `id` is the position of the first descriptor of the table that is equal
/// to `program_descriptor`.
pub open spec fn is_program_id(
    program_descriptors: Seq<ProgramDescriptor>,
    program_descriptor: ProgramDescriptor,
    id: ShaderProgramId,
) -> bool {
    &&& id < program_descriptors.len()
    &&& program_descriptors[id as int].spec_is_equal(program_descriptor)
    &&& forall|j: int|
        0 <= j < id ==> !(#[trigger] program_descriptors[j]).spec_is_equal(program_descriptor)
}

/// The position in the table of the first descriptor equal to `program_descriptor`.
pub fn get_program_id(
    program_descriptors: &[ProgramDescriptor],
    program_descriptor: ProgramDescriptor,
) -> (id: ShaderProgramId)
    requires
        has_program(program_descriptors@, program_descriptor),
    ensures
        is_program_id(program_descriptors@, program_descriptor, id),
{
    let mut i: ShaderProgramId = 0;
    while i < program_descriptors.len()
        invariant
            0 <= i <= program_descriptors@.len(),
            forall|j: int|
                0 <= j < i ==> !(#[trigger] program_descriptors@[j]).spec_is_equal(
                    program_descriptor,
                ),
        decreases program_descriptors@.len() - i,
    {
        if program_descriptors[i].is_equal(&program_descriptor) {
            return i;
        }
        i += 1;
    }
    proof {
        assert(false);
    }
    0
}

/// The positions in the table of the six programs of a material.
pub fn get_program_id_container(
    program_descriptors: &[ProgramDescriptor],
    group: &ProgramDescriptorGroup,
) -> (ids: ShaderProgramIdGroup)
    requires
        has_program(program_descriptors@, group.normal_3D),
        has_program(program_descriptors@, group.normal_3D_skeleton),
        has_program(program_descriptors@, group.degenerate_3D),
        has_program(program_descriptors@, group.degenerate_3D_skeleton),
        has_program(program_descriptors@, group.degenerate_4D),
        has_program(program_descriptors@, group.degenerate_4D_skeleton),
    ensures
        is_program_id(program_descriptors@, group.normal_3D, ids.normal_3D),
        is_program_id(program_descriptors@, group.normal_3D_skeleton, ids.normal_3D_skeleton),
        is_program_id(program_descriptors@, group.degenerate_3D, ids.degenerate_3D),
        is_program_id(
            program_descriptors@,
            group.degenerate_3D_skeleton,
            ids.degenerate_3D_skeleton,
        ),
        is_program_id(program_descriptors@, group.degenerate_4D, ids.degenerate_4D),
        is_program_id(
            program_descriptors@,
            group.degenerate_4D_skeleton,
            ids.degenerate_4D_skeleton,
        ),
{
    ShaderProgramIdGroup {
        normal_3D: get_program_id(program_descriptors, group.normal_3D),
        normal_3D_skeleton: get_program_id(program_descriptors, group.normal_3D_skeleton),
        degenerate_3D: get_program_id(program_descriptors, group.degenerate_3D),
        degenerate_3D_skeleton: get_program_id(program_descriptors, group.degenerate_3D_skeleton),
        degenerate_4D: get_program_id(program_descriptors, group.degenerate_4D),
        degenerate_4D_skeleton: get_program_id(program_descriptors, group.degenerate_4D_skeleton),
    }
}

} // verus!
