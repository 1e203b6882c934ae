use gunship::gl_types::{
    AttributeLocation, Boolean, BufferName, BufferTarget, ClearBufferMask, DebugType, DestFactor, ErrorCode,
    ProgramObject, ServerCapability, ShaderObject, ShaderType, TextureInternalFormat, UniformLocation,
    VertexArrayName,
};

#[test]
fn enum_values_are_opengl_constants() {
    assert_eq!(Boolean::False.value(), 0);
    assert_eq!(Boolean::True.value(), 1);
    assert_eq!(BufferTarget::Array.value(), 0x8892);
    assert_eq!(BufferTarget::ElementArray.value(), 0x8893);
    assert_eq!(ClearBufferMask::Depth.value(), 0x100);
    assert_eq!(ClearBufferMask::Color.value(), 0x4000);
    assert_eq!(ShaderType::Vertex.value(), 0x8B31);
    assert_eq!(ShaderType::Fragment.value(), 0x8B30);
    assert_eq!(ServerCapability::DebugOutput.value(), 0x92E0);
    assert_eq!(ErrorCode::NoError.value(), 0);
    assert_eq!(ErrorCode::OutOfMemory.value(), 0x0505);
    assert_eq!(TextureInternalFormat::Three.value(), 3);
    assert_eq!(DestFactor::OneMinusDstAlpha.value(), 0x0305);
    assert_eq!(DebugType::PopGroup.value(), 0x826A);
}

#[test]
fn null_names() {
    assert!(ProgramObject::null().is_null());
    assert!(ShaderObject::null().is_null());
    assert_eq!(BufferName::null(), BufferName::null());
    assert_eq!(VertexArrayName::null(), VertexArrayName::null());
}

#[test]
fn locations_keep_their_index() {
    assert_eq!(AttributeLocation::from_index(3), AttributeLocation::from_index(3));
    assert_ne!(AttributeLocation::from_index(3), AttributeLocation::from_index(4));
    assert_ne!(UniformLocation::from_index(0), UniformLocation::from_index(1));
}
