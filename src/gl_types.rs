use vstd::prelude::*;

verus! {

/// Location of a vertex attribute of a shader program.
#[derive(Debug, Clone, Copy, PartialEq, Eq, Structural)]
pub struct AttributeLocation(u32);

impl AttributeLocation {
    pub closed spec fn index(self) -> u32 {
        self.0
    }

    pub fn from_index(index: u32) -> (r: AttributeLocation)
        ensures
            r.index() == index,
    {
        AttributeLocation(index)
    }
}

/// Name of a buffer object.
#[derive(Debug, Clone, Copy, PartialEq, Eq, Structural)]
pub struct BufferName(u32);

impl BufferName {
    pub closed spec fn name(self) -> u32 {
        self.0
    }

    /// The name that stands for no buffer.
    pub fn null() -> (r: BufferName)
        ensures
            r.name() == 0,
    {
        BufferName(0)
    }
}

/// Name of a program object.
#[derive(Debug, Clone, Copy, PartialEq, Eq, Structural)]
pub struct ProgramObject(u32);

impl ProgramObject {
    pub closed spec fn name(self) -> u32 {
        self.0
    }

    /// The name that stands for no program.
    pub fn null() -> (r: ProgramObject)
        ensures
            r.name() == 0,
    {
        ProgramObject(0)
    }

    pub fn is_null(&self) -> (r: bool)
        ensures
            r == (self.name() == 0),
    {
        *self == ProgramObject(0)
    }
}

/// Name of a shader object.
#[derive(Debug, Clone, Copy, PartialEq, Eq, Structural)]
pub struct ShaderObject(u32);

impl ShaderObject {
    pub closed spec fn name(self) -> u32 {
        self.0
    }

    /// The name that stands for no shader.
    pub fn null() -> (r: ShaderObject)
        ensures
            r.name() == 0,
    {
        ShaderObject(0)
    }

    pub fn is_null(&self) -> (r: bool)
        ensures
            r == (self.name() == 0),
    {
        *self == ShaderObject(0)
    }
}

/// Location of a uniform of a shader program.
#[derive(Debug, Clone, Copy, PartialEq, Eq, Structural)]
pub struct UniformLocation(u32);

impl UniformLocation {
    pub closed spec fn index(self) -> u32 {
        self.0
    }

    pub fn from_index(index: u32) -> (r: UniformLocation)
        ensures
            r.index() == index,
    {
        UniformLocation(index)
    }
}

/// Name of a vertex array object.
#[derive(Debug, Clone, Copy, PartialEq, Eq, Structural)]
pub struct VertexArrayName(u32);

impl VertexArrayName {
    pub closed spec fn name(self) -> u32 {
        self.0
    }

    /// The name that stands for no vertex array.
    pub fn null() -> (r: VertexArrayName)
        ensures
            r.name() == 0,
    {
        VertexArrayName(0)
    }
}

/// Name of a texture object.
#[derive(Debug, Clone, Copy, PartialEq, Eq, Structural)]
pub struct TextureObject(u32);

// OpenGL's enumerations. The `value` of each is the constant OpenGL defines
// for it.

#[derive(Debug, Clone, Copy, PartialEq, Eq, Structural)]
pub enum Boolean {
    False,
    True,
}

impl Boolean {
    pub open spec fn spec_value(self) -> u32 {
        match self {
            Boolean::False => 0,
            Boolean::True => 1,
        }
    }

    /// The OpenGL constant of this value.
    pub fn value(self) -> (r: u32)
        ensures
            r == self.spec_value(),
    {
        match self {
            Boolean::False => 0,
            Boolean::True => 1,
        }
    }
}

#[derive(Debug, Clone, Copy, PartialEq, Eq, Structural)]
pub enum BufferTarget {
    Array,
    AtomicCounter,
    CopyRead,
    CopyWrite,
    Uniform,
    DispatchIndirect,
    DrawIndirect,
    ElementArray,
    PixelPack,
    PixelUnpack,
    Query,
    ShaderStorage,
    Texture,
    TransformFeedback,
}

impl BufferTarget {
    pub open spec fn spec_value(self) -> u32 {
        match self {
            BufferTarget::Array => 0x8892,
            BufferTarget::AtomicCounter => 0x92C0,
            BufferTarget::CopyRead => 0x8F36,
            BufferTarget::CopyWrite => 0x8F37,
            BufferTarget::Uniform => 0x8A11,
            BufferTarget::DispatchIndirect => 0x90EE,
            BufferTarget::DrawIndirect => 0x8F3F,
            BufferTarget::ElementArray => 0x8893,
            BufferTarget::PixelPack => 0x88EB,
            BufferTarget::PixelUnpack => 0x88EC,
            BufferTarget::Query => 0x9192,
            BufferTarget::ShaderStorage => 0x90D2,
            BufferTarget::Texture => 0x8C2A,
            BufferTarget::TransformFeedback => 0x8C8E,
        }
    }

    /// The OpenGL constant of this value.
    pub fn value(self) -> (r: u32)
        ensures
            r == self.spec_value(),
    {
        match self {
            BufferTarget::Array => 0x8892,
            BufferTarget::AtomicCounter => 0x92C0,
            BufferTarget::CopyRead => 0x8F36,
            BufferTarget::CopyWrite => 0x8F37,
            BufferTarget::Uniform => 0x8A11,
            BufferTarget::DispatchIndirect => 0x90EE,
            BufferTarget::DrawIndirect => 0x8F3F,
            BufferTarget::ElementArray => 0x8893,
            BufferTarget::PixelPack => 0x88EB,
            BufferTarget::PixelUnpack => 0x88EC,
            BufferTarget::Query => 0x9192,
            BufferTarget::ShaderStorage => 0x90D2,
            BufferTarget::Texture => 0x8C2A,
            BufferTarget::TransformFeedback => 0x8C8E,
        }
    }
}

#[derive(Debug, Clone, Copy, PartialEq, Eq, Structural)]
pub enum BufferUsage {
    StreamDraw,
    StreamRead,
    StreamCopy,
    StaticDraw,
    StaticRead,
    StaticCopy,
    DynamicDraw,
    DynamicRead,
    DynamicCopy,
}

impl BufferUsage {
    pub open spec fn spec_value(self) -> u32 {
        match self {
            BufferUsage::StreamDraw => 0x88E0,
            BufferUsage::StreamRead => 0x88E1,
            BufferUsage::StreamCopy => 0x88E2,
            BufferUsage::StaticDraw => 0x88E4,
            BufferUsage::StaticRead => 0x88E5,
            BufferUsage::StaticCopy => 0x88E6,
            BufferUsage::DynamicDraw => 0x88E8,
            BufferUsage::DynamicRead => 0x88E9,
            BufferUsage::DynamicCopy => 0x88EA,
        }
    }

    /// The OpenGL constant of this value.
    pub fn value(self) -> (r: u32)
        ensures
            r == self.spec_value(),
    {
        match self {
            BufferUsage::StreamDraw => 0x88E0,
            BufferUsage::StreamRead => 0x88E1,
            BufferUsage::StreamCopy => 0x88E2,
            BufferUsage::StaticDraw => 0x88E4,
            BufferUsage::StaticRead => 0x88E5,
            BufferUsage::StaticCopy => 0x88E6,
            BufferUsage::DynamicDraw => 0x88E8,
            BufferUsage::DynamicRead => 0x88E9,
            BufferUsage::DynamicCopy => 0x88EA,
        }
    }
}

#[derive(Debug, Clone, Copy, PartialEq, Eq, Structural)]
pub enum ClearBufferMask {
    Depth,
    Stencil,
    Color,
}

impl ClearBufferMask {
    pub open spec fn spec_value(self) -> u32 {
        match self {
            ClearBufferMask::Depth => 0x00000100,
            ClearBufferMask::Stencil => 0x00000400,
            ClearBufferMask::Color => 0x00004000,
        }
    }

    /// The OpenGL constant of this value.
    pub fn value(self) -> (r: u32)
        ensures
            r == self.spec_value(),
    {
        match self {
            ClearBufferMask::Depth => 0x00000100,
            ClearBufferMask::Stencil => 0x00000400,
            ClearBufferMask::Color => 0x00004000,
        }
    }
}

#[derive(Debug, Clone, Copy, PartialEq, Eq, Structural)]
pub enum Comparison {
    Never,
    Less,
    Equal,
    LessThanOrEqual,
    Greater,
    NotEqual,
    GreaterThanOrEqual,
    Always,
}

impl Comparison {
    pub open spec fn spec_value(self) -> u32 {
        match self {
            Comparison::Never => 0x0200,
            Comparison::Less => 0x0201,
            Comparison::Equal => 0x0202,
            Comparison::LessThanOrEqual => 0x0203,
            Comparison::Greater => 0x0204,
            Comparison::NotEqual => 0x0205,
            Comparison::GreaterThanOrEqual => 0x0206,
            Comparison::Always => 0x0207,
        }
    }

    /// The OpenGL constant of this value.
    pub fn value(self) -> (r: u32)
        ensures
            r == self.spec_value(),
    {
        match self {
            Comparison::Never => 0x0200,
            Comparison::Less => 0x0201,
            Comparison::Equal => 0x0202,
            Comparison::LessThanOrEqual => 0x0203,
            Comparison::Greater => 0x0204,
            Comparison::NotEqual => 0x0205,
            Comparison::GreaterThanOrEqual => 0x0206,
            Comparison::Always => 0x0207,
        }
    }
}

#[derive(Debug, Clone, Copy, PartialEq, Eq, Structural)]
pub enum DrawMode {
    Points,
    Lines,
    LineLoop,
    LineStrip,
    Triangles,
    TriangleStrip,
    TriangleFan,
    Quads,
}

impl DrawMode {
    pub open spec fn spec_value(self) -> u32 {
        match self {
            DrawMode::Points => 0x0000,
            DrawMode::Lines => 0x0001,
            DrawMode::LineLoop => 0x0002,
            DrawMode::LineStrip => 0x0003,
            DrawMode::Triangles => 0x0004,
            DrawMode::TriangleStrip => 0x0005,
            DrawMode::TriangleFan => 0x0006,
            DrawMode::Quads => 0x0007,
        }
    }

    /// The OpenGL constant of this value.
    pub fn value(self) -> (r: u32)
        ensures
            r == self.spec_value(),
    {
        match self {
            DrawMode::Points => 0x0000,
            DrawMode::Lines => 0x0001,
            DrawMode::LineLoop => 0x0002,
            DrawMode::LineStrip => 0x0003,
            DrawMode::Triangles => 0x0004,
            DrawMode::TriangleStrip => 0x0005,
            DrawMode::TriangleFan => 0x0006,
            DrawMode::Quads => 0x0007,
        }
    }
}

#[derive(Debug, Clone, Copy, PartialEq, Eq, Structural)]
pub enum Face {
    Front,
    Back,
    FrontAndBack,
}

impl Face {
    pub open spec fn spec_value(self) -> u32 {
        match self {
            Face::Front => 0x0404,
            Face::Back => 0x0405,
            Face::FrontAndBack => 0x0408,
        }
    }

    /// The OpenGL constant of this value.
    pub fn value(self) -> (r: u32)
        ensures
            r == self.spec_value(),
    {
        match self {
            Face::Front => 0x0404,
            Face::Back => 0x0405,
            Face::FrontAndBack => 0x0408,
        }
    }
}

#[derive(Debug, Clone, Copy, PartialEq, Eq, Structural)]
pub enum GlType {
    Byte,
    UnsignedByte,
    Short,
    UnsignedShort,
    Float,
    Fixed,
    Int,
    UnsignedInt,
    HalfFloat,
    Double,
}

impl GlType {
    pub open spec fn spec_value(self) -> u32 {
        match self {
            GlType::Byte => 0x1400,
            GlType::UnsignedByte => 0x1401,
            GlType::Short => 0x1402,
            GlType::UnsignedShort => 0x1403,
            GlType::Float => 0x1406,
            GlType::Fixed => 0x140C,
            GlType::Int => 0x1404,
            GlType::UnsignedInt => 0x1405,
            GlType::HalfFloat => 0x140B,
            GlType::Double => 0x140A,
        }
    }

    /// The OpenGL constant of this value.
    pub fn value(self) -> (r: u32)
        ensures
            r == self.spec_value(),
    {
        match self {
            GlType::Byte => 0x1400,
            GlType::UnsignedByte => 0x1401,
            GlType::Short => 0x1402,
            GlType::UnsignedShort => 0x1403,
            GlType::Float => 0x1406,
            GlType::Fixed => 0x140C,
            GlType::Int => 0x1404,
            GlType::UnsignedInt => 0x1405,
            GlType::HalfFloat => 0x140B,
            GlType::Double => 0x140A,
        }
    }
}

#[derive(Debug, Clone, Copy, PartialEq, Eq, Structural)]
pub enum IndexType {
    UnsignedByte,
    UnsignedShort,
    UnsignedInt,
}

impl IndexType {
    pub open spec fn spec_value(self) -> u32 {
        match self {
            IndexType::UnsignedByte => 0x1401,
            IndexType::UnsignedShort => 0x1403,
            IndexType::UnsignedInt => 0x1405,
        }
    }

    /// The OpenGL constant of this value.
    pub fn value(self) -> (r: u32)
        ensures
            r == self.spec_value(),
    {
        match self {
            IndexType::UnsignedByte => 0x1401,
            IndexType::UnsignedShort => 0x1403,
            IndexType::UnsignedInt => 0x1405,
        }
    }
}

#[derive(Debug, Clone, Copy, PartialEq, Eq, Structural)]
pub enum IntegerName {
    MajorVersion,
    MinorVersion,
    NumExtensions,
}

impl IntegerName {
    pub open spec fn spec_value(self) -> u32 {
        match self {
            IntegerName::MajorVersion => 0x821B,
            IntegerName::MinorVersion => 0x821C,
            IntegerName::NumExtensions => 0x821D,
        }
    }

    /// The OpenGL constant of this value.
    pub fn value(self) -> (r: u32)
        ensures
            r == self.spec_value(),
    {
        match self {
            IntegerName::MajorVersion => 0x821B,
            IntegerName::MinorVersion => 0x821C,
            IntegerName::NumExtensions => 0x821D,
        }
    }
}

#[derive(Debug, Clone, Copy, PartialEq, Eq, Structural)]
pub enum PolygonMode {
    Point,
    Line,
    Fill,
}

impl PolygonMode {
    pub open spec fn spec_value(self) -> u32 {
        match self {
            PolygonMode::Point => 0x1B00,
            PolygonMode::Line => 0x1B01,
            PolygonMode::Fill => 0x1B02,
        }
    }

    /// The OpenGL constant of this value.
    pub fn value(self) -> (r: u32)
        ensures
            r == self.spec_value(),
    {
        match self {
            PolygonMode::Point => 0x1B00,
            PolygonMode::Line => 0x1B01,
            PolygonMode::Fill => 0x1B02,
        }
    }
}

#[derive(Debug, Clone, Copy, PartialEq, Eq, Structural)]
pub enum ProgramParam {
    DeleteStatus,
    LinkStatus,
    ValidateStatus,
    InfoLogLength,
    AttachedShaders,
    ActiveUniforms,
    ActiveUniformMaxLength,
    ActiveAttributes,
    ActiveAttributeMaxLength,
}

impl ProgramParam {
    pub open spec fn spec_value(self) -> u32 {
        match self {
            ProgramParam::DeleteStatus => 0x8B80,
            ProgramParam::LinkStatus => 0x8B82,
            ProgramParam::ValidateStatus => 0x8B83,
            ProgramParam::InfoLogLength => 0x8B84,
            ProgramParam::AttachedShaders => 0x8B85,
            ProgramParam::ActiveUniforms => 0x8B86,
            ProgramParam::ActiveUniformMaxLength => 0x8B87,
            ProgramParam::ActiveAttributes => 0x8B89,
            ProgramParam::ActiveAttributeMaxLength => 0x8B8A,
        }
    }

    /// The OpenGL constant of this value.
    pub fn value(self) -> (r: u32)
        ensures
            r == self.spec_value(),
    {
        match self {
            ProgramParam::DeleteStatus => 0x8B80,
            ProgramParam::LinkStatus => 0x8B82,
            ProgramParam::ValidateStatus => 0x8B83,
            ProgramParam::InfoLogLength => 0x8B84,
            ProgramParam::AttachedShaders => 0x8B85,
            ProgramParam::ActiveUniforms => 0x8B86,
            ProgramParam::ActiveUniformMaxLength => 0x8B87,
            ProgramParam::ActiveAttributes => 0x8B89,
            ProgramParam::ActiveAttributeMaxLength => 0x8B8A,
        }
    }
}

#[derive(Debug, Clone, Copy, PartialEq, Eq, Structural)]
pub enum ShaderParam {
    ShaderType,
    DeleteStatus,
    CompileStatus,
    InfoLogLength,
    ShaderSourceLength,
}

impl ShaderParam {
    pub open spec fn spec_value(self) -> u32 {
        match self {
            ShaderParam::ShaderType => 0x8B4F,
            ShaderParam::DeleteStatus => 0x8B80,
            ShaderParam::CompileStatus => 0x8B81,
            ShaderParam::InfoLogLength => 0x8B84,
            ShaderParam::ShaderSourceLength => 0x8B88,
        }
    }

    /// The OpenGL constant of this value.
    pub fn value(self) -> (r: u32)
        ensures
            r == self.spec_value(),
    {
        match self {
            ShaderParam::ShaderType => 0x8B4F,
            ShaderParam::DeleteStatus => 0x8B80,
            ShaderParam::CompileStatus => 0x8B81,
            ShaderParam::InfoLogLength => 0x8B84,
            ShaderParam::ShaderSourceLength => 0x8B88,
        }
    }
}

#[derive(Debug, Clone, Copy, PartialEq, Eq, Structural)]
pub enum ShaderType {
    Compute,
    Fragment,
    Vertex,
    Geometry,
    TessEvaluation,
    TessControl,
}

impl ShaderType {
    pub open spec fn spec_value(self) -> u32 {
        match self {
            ShaderType::Compute => 0x91B9,
            ShaderType::Fragment => 0x8B30,
            ShaderType::Vertex => 0x8B31,
            ShaderType::Geometry => 0x8DD9,
            ShaderType::TessEvaluation => 0x8E87,
            ShaderType::TessControl => 0x8E88,
        }
    }

    /// The OpenGL constant of this value.
    pub fn value(self) -> (r: u32)
        ensures
            r == self.spec_value(),
    {
        match self {
            ShaderType::Compute => 0x91B9,
            ShaderType::Fragment => 0x8B30,
            ShaderType::Vertex => 0x8B31,
            ShaderType::Geometry => 0x8DD9,
            ShaderType::TessEvaluation => 0x8E87,
            ShaderType::TessControl => 0x8E88,
        }
    }
}

#[derive(Debug, Clone, Copy, PartialEq, Eq, Structural)]
pub enum WindingOrder {
    Clockwise,
    CounterClockwise,
}

impl WindingOrder {
    pub open spec fn spec_value(self) -> u32 {
        match self {
            WindingOrder::Clockwise => 0x0900,
            WindingOrder::CounterClockwise => 0x0901,
        }
    }

    /// The OpenGL constant of this value.
    pub fn value(self) -> (r: u32)
        ensures
            r == self.spec_value(),
    {
        match self {
            WindingOrder::Clockwise => 0x0900,
            WindingOrder::CounterClockwise => 0x0901,
        }
    }
}

#[derive(Debug, Clone, Copy, PartialEq, Eq, Structural)]
pub enum ServerCapability {
    Fog,
    Lighting,
    Texture2D,
    CullFace,
    AlphaTest,
    Blend,
    ColorLogicOp,
    Dither,
    StencilTest,
    DepthTest,
    PointSmooth,
    LineSmooth,
    ScissorTest,
    ColorMaterial,
    Normalize,
    RescaleNormal,
    PolygonOffsetFill,
    VertexArray,
    NormalArray,
    ColorArray,
    TextureCoordArray,
    Multisample,
    SampleAlphaToCoverage,
    SampleAlphaToOne,
    SampleCoverage,
    /// Introduced: OpenGL 4.3
    DebugOutput,
}

impl ServerCapability {
    pub open spec fn spec_value(self) -> u32 {
        match self {
            ServerCapability::Fog => 0x0B60,
            ServerCapability::Lighting => 0x0B50,
            ServerCapability::Texture2D => 0x0DE1,
            ServerCapability::CullFace => 0x0B44,
            ServerCapability::AlphaTest => 0x0BC0,
            ServerCapability::Blend => 0x0BE2,
            ServerCapability::ColorLogicOp => 0x0BF2,
            ServerCapability::Dither => 0x0BD0,
            ServerCapability::StencilTest => 0x0B90,
            ServerCapability::DepthTest => 0x0B71,
            ServerCapability::PointSmooth => 0x0B10,
            ServerCapability::LineSmooth => 0x0B20,
            ServerCapability::ScissorTest => 0x0C11,
            ServerCapability::ColorMaterial => 0x0B57,
            ServerCapability::Normalize => 0x0BA1,
            ServerCapability::RescaleNormal => 0x803A,
            ServerCapability::PolygonOffsetFill => 0x8037,
            ServerCapability::VertexArray => 0x8074,
            ServerCapability::NormalArray => 0x8075,
            ServerCapability::ColorArray => 0x8076,
            ServerCapability::TextureCoordArray => 0x8078,
            ServerCapability::Multisample => 0x809D,
            ServerCapability::SampleAlphaToCoverage => 0x809E,
            ServerCapability::SampleAlphaToOne => 0x809F,
            ServerCapability::SampleCoverage => 0x80A0,
            ServerCapability::DebugOutput => 0x92E0,
        }
    }

    /// The OpenGL constant of this value.
    pub fn value(self) -> (r: u32)
        ensures
            r == self.spec_value(),
    {
        match self {
            ServerCapability::Fog => 0x0B60,
            ServerCapability::Lighting => 0x0B50,
            ServerCapability::Texture2D => 0x0DE1,
            ServerCapability::CullFace => 0x0B44,
            ServerCapability::AlphaTest => 0x0BC0,
            ServerCapability::Blend => 0x0BE2,
            ServerCapability::ColorLogicOp => 0x0BF2,
            ServerCapability::Dither => 0x0BD0,
            ServerCapability::StencilTest => 0x0B90,
            ServerCapability::DepthTest => 0x0B71,
            ServerCapability::PointSmooth => 0x0B10,
            ServerCapability::LineSmooth => 0x0B20,
            ServerCapability::ScissorTest => 0x0C11,
            ServerCapability::ColorMaterial => 0x0B57,
            ServerCapability::Normalize => 0x0BA1,
            ServerCapability::RescaleNormal => 0x803A,
            ServerCapability::PolygonOffsetFill => 0x8037,
            ServerCapability::VertexArray => 0x8074,
            ServerCapability::NormalArray => 0x8075,
            ServerCapability::ColorArray => 0x8076,
            ServerCapability::TextureCoordArray => 0x8078,
            ServerCapability::Multisample => 0x809D,
            ServerCapability::SampleAlphaToCoverage => 0x809E,
            ServerCapability::SampleAlphaToOne => 0x809F,
            ServerCapability::SampleCoverage => 0x80A0,
            ServerCapability::DebugOutput => 0x92E0,
        }
    }
}

#[derive(Debug, Clone, Copy, PartialEq, Eq, Structural)]
pub enum ErrorCode {
    NoError,
    InvalidEnum,
    InvalidValue,
    InvalidOperation,
    StackOverflow,
    StackUnderflow,
    OutOfMemory,
}

impl ErrorCode {
    pub open spec fn spec_value(self) -> u32 {
        match self {
            ErrorCode::NoError => 0,
            ErrorCode::InvalidEnum => 0x0500,
            ErrorCode::InvalidValue => 0x0501,
            ErrorCode::InvalidOperation => 0x0502,
            ErrorCode::StackOverflow => 0x0503,
            ErrorCode::StackUnderflow => 0x0504,
            ErrorCode::OutOfMemory => 0x0505,
        }
    }

    /// The OpenGL constant of this value.
    pub fn value(self) -> (r: u32)
        ensures
            r == self.spec_value(),
    {
        match self {
            ErrorCode::NoError => 0,
            ErrorCode::InvalidEnum => 0x0500,
            ErrorCode::InvalidValue => 0x0501,
            ErrorCode::InvalidOperation => 0x0502,
            ErrorCode::StackOverflow => 0x0503,
            ErrorCode::StackUnderflow => 0x0504,
            ErrorCode::OutOfMemory => 0x0505,
        }
    }
}

#[derive(Debug, Clone, Copy, PartialEq, Eq, Structural)]
pub enum TextureBindTarget {
    Texture2d,
    Texture3d,
    CubeMap,
}

impl TextureBindTarget {
    pub open spec fn spec_value(self) -> u32 {
        match self {
            TextureBindTarget::Texture2d => 0x0DE1,
            TextureBindTarget::Texture3d => 0x806F,
            TextureBindTarget::CubeMap => 0x8513,
        }
    }

    /// The OpenGL constant of this value.
    pub fn value(self) -> (r: u32)
        ensures
            r == self.spec_value(),
    {
        match self {
            TextureBindTarget::Texture2d => 0x0DE1,
            TextureBindTarget::Texture3d => 0x806F,
            TextureBindTarget::CubeMap => 0x8513,
        }
    }
}

#[derive(Debug, Clone, Copy, PartialEq, Eq, Structural)]
pub enum Texture2dTarget {
    Texture2d,
    CubeMapPositiveX,
    CubeMapNegativeX,
    CubeMapPositiveY,
    CubeMapNegativeY,
    CubeMapPositiveZ,
    CubeMapNegativeZ,
}

impl Texture2dTarget {
    pub open spec fn spec_value(self) -> u32 {
        match self {
            Texture2dTarget::Texture2d => 0x0DE1,
            Texture2dTarget::CubeMapPositiveX => 0x8515,
            Texture2dTarget::CubeMapNegativeX => 0x8516,
            Texture2dTarget::CubeMapPositiveY => 0x8517,
            Texture2dTarget::CubeMapNegativeY => 0x8518,
            Texture2dTarget::CubeMapPositiveZ => 0x8519,
            Texture2dTarget::CubeMapNegativeZ => 0x851A,
        }
    }

    /// The OpenGL constant of this value.
    pub fn value(self) -> (r: u32)
        ensures
            r == self.spec_value(),
    {
        match self {
            Texture2dTarget::Texture2d => 0x0DE1,
            Texture2dTarget::CubeMapPositiveX => 0x8515,
            Texture2dTarget::CubeMapNegativeX => 0x8516,
            Texture2dTarget::CubeMapPositiveY => 0x8517,
            Texture2dTarget::CubeMapNegativeY => 0x8518,
            Texture2dTarget::CubeMapPositiveZ => 0x8519,
            Texture2dTarget::CubeMapNegativeZ => 0x851A,
        }
    }
}

#[derive(Debug, Clone, Copy, PartialEq, Eq, Structural)]
pub enum TextureDataType {
    Byte,
    UnsignedByte,
    Short,
    UnsignedShort,
    Int,
    UnsignedInt,
    Float,
}

impl TextureDataType {
    pub open spec fn spec_value(self) -> u32 {
        match self {
            TextureDataType::Byte => 0x1400,
            TextureDataType::UnsignedByte => 0x1401,
            TextureDataType::Short => 0x1402,
            TextureDataType::UnsignedShort => 0x1403,
            TextureDataType::Int => 0x1404,
            TextureDataType::UnsignedInt => 0x1405,
            TextureDataType::Float => 0x1406,
        }
    }

    /// The OpenGL constant of this value.
    pub fn value(self) -> (r: u32)
        ensures
            r == self.spec_value(),
    {
        match self {
            TextureDataType::Byte => 0x1400,
            TextureDataType::UnsignedByte => 0x1401,
            TextureDataType::Short => 0x1402,
            TextureDataType::UnsignedShort => 0x1403,
            TextureDataType::Int => 0x1404,
            TextureDataType::UnsignedInt => 0x1405,
            TextureDataType::Float => 0x1406,
        }
    }
}

#[derive(Debug, Clone, Copy, PartialEq, Eq, Structural)]
pub enum TextureInternalFormat {
    One,
    Two,
    Three,
    Four,
    Rgb,
    Rgba,
}

impl TextureInternalFormat {
    pub open spec fn spec_value(self) -> u32 {
        match self {
            TextureInternalFormat::One => 1,
            TextureInternalFormat::Two => 2,
            TextureInternalFormat::Three => 3,
            TextureInternalFormat::Four => 4,
            TextureInternalFormat::Rgb => 0x1907,
            TextureInternalFormat::Rgba => 0x1908,
        }
    }

    /// The OpenGL constant of this value.
    pub fn value(self) -> (r: u32)
        ensures
            r == self.spec_value(),
    {
        match self {
            TextureInternalFormat::One => 1,
            TextureInternalFormat::Two => 2,
            TextureInternalFormat::Three => 3,
            TextureInternalFormat::Four => 4,
            TextureInternalFormat::Rgb => 0x1907,
            TextureInternalFormat::Rgba => 0x1908,
        }
    }
}

#[derive(Debug, Clone, Copy, PartialEq, Eq, Structural)]
pub enum TextureFormat {
    Rgb,
    Rgba,
    Bgr,
    Bgra,
}

impl TextureFormat {
    pub open spec fn spec_value(self) -> u32 {
        match self {
            TextureFormat::Rgb => 0x1907,
            TextureFormat::Rgba => 0x1908,
            TextureFormat::Bgr => 0x80E0,
            TextureFormat::Bgra => 0x80E1,
        }
    }

    /// The OpenGL constant of this value.
    pub fn value(self) -> (r: u32)
        ensures
            r == self.spec_value(),
    {
        match self {
            TextureFormat::Rgb => 0x1907,
            TextureFormat::Rgba => 0x1908,
            TextureFormat::Bgr => 0x80E0,
            TextureFormat::Bgra => 0x80E1,
        }
    }
}

#[derive(Debug, Clone, Copy, PartialEq, Eq, Structural)]
pub enum DestFactor {
    Zero,
    One,
    SrcColor,
    OneMinusSrcColor,
    SrcAlpha,
    OneMinusSrcAlpha,
    DstAlpha,
    OneMinusDstAlpha,
}

impl DestFactor {
    pub open spec fn spec_value(self) -> u32 {
        match self {
            DestFactor::Zero => 0,
            DestFactor::One => 1,
            DestFactor::SrcColor => 0x0300,
            DestFactor::OneMinusSrcColor => 0x0301,
            DestFactor::SrcAlpha => 0x0302,
            DestFactor::OneMinusSrcAlpha => 0x0303,
            DestFactor::DstAlpha => 0x0304,
            DestFactor::OneMinusDstAlpha => 0x0305,
        }
    }

    /// The OpenGL constant of this value.
    pub fn value(self) -> (r: u32)
        ensures
            r == self.spec_value(),
    {
        match self {
            DestFactor::Zero => 0,
            DestFactor::One => 1,
            DestFactor::SrcColor => 0x0300,
            DestFactor::OneMinusSrcColor => 0x0301,
            DestFactor::SrcAlpha => 0x0302,
            DestFactor::OneMinusSrcAlpha => 0x0303,
            DestFactor::DstAlpha => 0x0304,
            DestFactor::OneMinusDstAlpha => 0x0305,
        }
    }
}

#[derive(Debug, Clone, Copy, PartialEq, Eq, Structural)]
pub enum SourceFactor {
    Zero,
    One,
    SrcColor,
    OneMinusSrcColor,
    SrcAlpha,
    OneMinusSrcAlpha,
    DstAlpha,
    OneMinusDstAlpha,
    DstColor,
    OneMinusDstColor,
    SrcAlphaSaturate,
}

impl SourceFactor {
    pub open spec fn spec_value(self) -> u32 {
        match self {
            SourceFactor::Zero => 0,
            SourceFactor::One => 1,
            SourceFactor::SrcColor => 0x0300,
            SourceFactor::OneMinusSrcColor => 0x0301,
            SourceFactor::SrcAlpha => 0x0302,
            SourceFactor::OneMinusSrcAlpha => 0x0303,
            SourceFactor::DstAlpha => 0x0304,
            SourceFactor::OneMinusDstAlpha => 0x0305,
            SourceFactor::DstColor => 0x0306,
            SourceFactor::OneMinusDstColor => 0x0307,
            SourceFactor::SrcAlphaSaturate => 0x0308,
        }
    }

    /// The OpenGL constant of this value.
    pub fn value(self) -> (r: u32)
        ensures
            r == self.spec_value(),
    {
        match self {
            SourceFactor::Zero => 0,
            SourceFactor::One => 1,
            SourceFactor::SrcColor => 0x0300,
            SourceFactor::OneMinusSrcColor => 0x0301,
            SourceFactor::SrcAlpha => 0x0302,
            SourceFactor::OneMinusSrcAlpha => 0x0303,
            SourceFactor::DstAlpha => 0x0304,
            SourceFactor::OneMinusDstAlpha => 0x0305,
            SourceFactor::DstColor => 0x0306,
            SourceFactor::OneMinusDstColor => 0x0307,
            SourceFactor::SrcAlphaSaturate => 0x0308,
        }
    }
}

#[derive(Debug, Clone, Copy, PartialEq, Eq, Structural)]
pub enum StringName {
    Vendor,
    Renderer,
    Version,
    ShadingLanguageVersion,
}

impl StringName {
    pub open spec fn spec_value(self) -> u32 {
        match self {
            StringName::Vendor => 0x1F00,
            StringName::Renderer => 0x1F01,
            StringName::Version => 0x1F02,
            StringName::ShadingLanguageVersion => 0x8B8C,
        }
    }

    /// The OpenGL constant of this value.
    pub fn value(self) -> (r: u32)
        ensures
            r == self.spec_value(),
    {
        match self {
            StringName::Vendor => 0x1F00,
            StringName::Renderer => 0x1F01,
            StringName::Version => 0x1F02,
            StringName::ShadingLanguageVersion => 0x8B8C,
        }
    }
}

#[derive(Debug, Clone, Copy, PartialEq, Eq, Structural)]
pub enum DebugSeverity {
    High,
    Medium,
    Low,
}

impl DebugSeverity {
    pub open spec fn spec_value(self) -> u32 {
        match self {
            DebugSeverity::High => 0x9146,
            DebugSeverity::Medium => 0x9147,
            DebugSeverity::Low => 0x9148,
        }
    }

    /// The OpenGL constant of this value.
    pub fn value(self) -> (r: u32)
        ensures
            r == self.spec_value(),
    {
        match self {
            DebugSeverity::High => 0x9146,
            DebugSeverity::Medium => 0x9147,
            DebugSeverity::Low => 0x9148,
        }
    }
}

#[derive(Debug, Clone, Copy, PartialEq, Eq, Structural)]
pub enum DebugSource {
    API,
    WindowSystem,
    ShaderCompiler,
    ThirdParty,
    Application,
    Other,
}

impl DebugSource {
    pub open spec fn spec_value(self) -> u32 {
        match self {
            DebugSource::API => 0x8246,
            DebugSource::WindowSystem => 0x8247,
            DebugSource::ShaderCompiler => 0x8248,
            DebugSource::ThirdParty => 0x8249,
            DebugSource::Application => 0x824A,
            DebugSource::Other => 0x824B,
        }
    }

    /// The OpenGL constant of this value.
    pub fn value(self) -> (r: u32)
        ensures
            r == self.spec_value(),
    {
        match self {
            DebugSource::API => 0x8246,
            DebugSource::WindowSystem => 0x8247,
            DebugSource::ShaderCompiler => 0x8248,
            DebugSource::ThirdParty => 0x8249,
            DebugSource::Application => 0x824A,
            DebugSource::Other => 0x824B,
        }
    }
}

#[derive(Debug, Clone, Copy, PartialEq, Eq, Structural)]
pub enum DebugType {
    Error,
    DeprecatedBehavior,
    UndefinedBehavior,
    Portability,
    Performance,
    Other,
    Marker,
    PushGroup,
    PopGroup,
}

impl DebugType {
    pub open spec fn spec_value(self) -> u32 {
        match self {
            DebugType::Error => 0x824C,
            DebugType::DeprecatedBehavior => 0x824D,
            DebugType::UndefinedBehavior => 0x824E,
            DebugType::Portability => 0x824F,
            DebugType::Performance => 0x8250,
            DebugType::Other => 0x8251,
            DebugType::Marker => 0x8268,
            DebugType::PushGroup => 0x8269,
            DebugType::PopGroup => 0x826A,
        }
    }

    /// The OpenGL constant of this value.
    pub fn value(self) -> (r: u32)
        ensures
            r == self.spec_value(),
    {
        match self {
            DebugType::Error => 0x824C,
            DebugType::DeprecatedBehavior => 0x824D,
            DebugType::UndefinedBehavior => 0x824E,
            DebugType::Portability => 0x824F,
            DebugType::Performance => 0x8250,
            DebugType::Other => 0x8251,
            DebugType::Marker => 0x8268,
            DebugType::PushGroup => 0x8269,
            DebugType::PopGroup => 0x826A,
        }
    }
}

} // verus!
