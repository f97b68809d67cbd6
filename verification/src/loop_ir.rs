//! Flat affine loop programs.
use vstd::prelude::*;

use crate::affine::{AffineExpr, AffineView, LoopVar};
use crate::data::{DataView, TensorData};
use crate::rational::{fraction_text, Rational};
use crate::shape::{shape_text, Shape};
use crate::text::{decimal, decimal_text, quoted, quoted_text};

verus! {

/// A buffer identifier.
#[derive(Debug, Clone, Copy, PartialEq, Eq, Hash, PartialOrd, Ord, Structural)]
pub struct BufferId(pub u32);

impl BufferId {
    /// Creates a buffer id from its stable numeric id.
    #[must_use]
    pub fn new(id: u32) -> (r: Self)
        ensures
            r == BufferId(id),
    {
        BufferId(id)
    }

    /// Returns the stable numeric id.
    #[must_use]
    pub fn id(self) -> (r: u32)
        ensures
            r == self.0,
    {
        self.0
    }

    /// The text of this id.
    pub open spec fn text(self) -> Seq<char> {
        "%b"@ + decimal(self.0 as nat)
    }

    /// Renders this id.
    pub fn to_text(self) -> (r: String)
        ensures
            r@ == self.text(),
    {
        String::from_str("%b").concat(decimal_text(self.0 as u64).as_str())
    }
}

/// Role of a kernel buffer.
#[derive(Debug)]
pub enum BufferRole {
    /// Named graph input.
    Input(String),
    /// Literal graph constant.
    Const(TensorData),
    /// Internal temporary.
    Temp,
    /// Graph output buffer.
    Output,
}

/// The contents of a [`BufferRole`].
pub enum RoleView {
    Input(Seq<char>),
    Const(DataView),
    Temp,
    Output,
}

impl View for BufferRole {
    type V = RoleView;

    open spec fn view(&self) -> RoleView {
        match *self {
            BufferRole::Input(name) => RoleView::Input(name@),
            BufferRole::Const(data) => RoleView::Const(data@),
            BufferRole::Temp => RoleView::Temp,
            BufferRole::Output => RoleView::Output,
        }
    }
}

impl RoleView {
    /// The text of this role.
    pub open spec fn text(self) -> Seq<char> {
        match self {
            RoleView::Input(name) => "input("@ + quoted_text(name) + ")"@,
            RoleView::Const(_) => "const"@,
            RoleView::Temp => "temp"@,
            RoleView::Output => "output"@,
        }
    }
}

/// A flat row-major kernel buffer.
#[derive(Debug)]
pub struct Buffer {
    pub id: BufferId,
    pub name: String,
    pub shape: Shape,
    pub role: BufferRole,
}

/// The contents of a [`Buffer`].
pub struct BufferView {
    pub id: BufferId,
    pub name: Seq<char>,
    pub shape: Seq<nat>,
    pub role: RoleView,
}

impl View for Buffer {
    type V = BufferView;

    open spec fn view(&self) -> BufferView {
        BufferView { id: self.id, name: self.name@, shape: self.shape@, role: self.role@ }
    }
}

/// A reference to a flat buffer element.
#[derive(Debug, PartialEq, Eq)]
pub struct BufferRef {
    /// Referenced buffer.
    pub buffer: BufferId,
    /// Flat affine row-major index.
    pub index: AffineExpr,
}

/// The contents of a [`BufferRef`].
pub struct RefView {
    pub buffer: BufferId,
    pub index: AffineView,
}

impl View for BufferRef {
    type V = RefView;

    open spec fn view(&self) -> RefView {
        RefView { buffer: self.buffer, index: self.index@ }
    }
}

/// A scalar expression.
#[derive(Debug, PartialEq, Eq)]
pub enum ScalarExpr {
    /// Load one buffer element.
    Load(BufferRef),
    /// Exact rational scalar literal.
    ConstScalar(Rational),
    /// Scalar addition.
    Add(Box<ScalarExpr>, Box<ScalarExpr>),
    /// Scalar subtraction.
    Sub(Box<ScalarExpr>, Box<ScalarExpr>),
    /// Scalar multiplication.
    Mul(Box<ScalarExpr>, Box<ScalarExpr>),
    /// Scalar negation.
    Neg(Box<ScalarExpr>),
    /// Scalar rectifier.
    Relu(Box<ScalarExpr>),
}

/// The contents of a [`ScalarExpr`].
pub enum ScalarView {
    Load(RefView),
    ConstScalar { numer: int, denom: int },
    Add(Box<ScalarView>, Box<ScalarView>),
    Sub(Box<ScalarView>, Box<ScalarView>),
    Mul(Box<ScalarView>, Box<ScalarView>),
    Neg(Box<ScalarView>),
    Relu(Box<ScalarView>),
}

/// What a scalar expression holds.
pub open spec fn scalar_view(e: ScalarExpr) -> ScalarView
    decreases e,
{
    match e {
        ScalarExpr::Load(reference) => ScalarView::Load(reference@),
        ScalarExpr::ConstScalar(v) => ScalarView::ConstScalar {
            numer: v.numerator(),
            denom: v.denominator(),
        },
        ScalarExpr::Add(l, r) => ScalarView::Add(
            Box::new(scalar_view(*l)),
            Box::new(scalar_view(*r)),
        ),
        ScalarExpr::Sub(l, r) => ScalarView::Sub(
            Box::new(scalar_view(*l)),
            Box::new(scalar_view(*r)),
        ),
        ScalarExpr::Mul(l, r) => ScalarView::Mul(
            Box::new(scalar_view(*l)),
            Box::new(scalar_view(*r)),
        ),
        ScalarExpr::Neg(x) => ScalarView::Neg(Box::new(scalar_view(*x))),
        ScalarExpr::Relu(x) => ScalarView::Relu(Box::new(scalar_view(*x))),
    }
}

impl View for ScalarExpr {
    type V = ScalarView;

    open spec fn view(&self) -> ScalarView {
        scalar_view(*self)
    }
}

/// The text of a buffer reference.
pub open spec fn ref_text(r: RefView) -> Seq<char> {
    r.buffer.text() + "["@ + r.index.text() + "]"@
}

/// The text of a scalar expression.
pub open spec fn scalar_text(e: ScalarView) -> Seq<char>
    decreases e,
{
    match e {
        ScalarView::Load(reference) => ref_text(reference),
        ScalarView::ConstScalar { numer, denom } => fraction_text(numer, denom),
        ScalarView::Add(l, r) => "("@ + scalar_text(*l) + " + "@ + scalar_text(*r) + ")"@,
        ScalarView::Sub(l, r) => "("@ + scalar_text(*l) + " - "@ + scalar_text(*r) + ")"@,
        ScalarView::Mul(l, r) => "("@ + scalar_text(*l) + " * "@ + scalar_text(*r) + ")"@,
        ScalarView::Neg(x) => "(-"@ + scalar_text(*x) + ")"@,
        ScalarView::Relu(x) => "relu("@ + scalar_text(*x) + ")"@,
    }
}

/// A loop statement.
#[derive(Debug, PartialEq, Eq)]
pub enum Stmt {
    /// Counted loop with affine exclusive bounds.
    For {
        /// Induction variable.
        var: LoopVar,
        /// Inclusive lower bound.
        lo: AffineExpr,
        /// Exclusive upper bound.
        hi: AffineExpr,
        /// Loop body.
        body: Vec<Stmt>,
    },
    /// Scalar assignment.
    Assign {
        /// Target element.
        target: BufferRef,
        /// Value to store.
        value: ScalarExpr,
    },
}

/// The contents of a [`Stmt`].
pub enum StmtView {
    For { var: LoopVar, lo: AffineView, hi: AffineView, body: Seq<StmtView> },
    Assign { target: RefView, value: ScalarView },
}

/// What a statement holds.
pub open spec fn stmt_view(s: Stmt) -> StmtView
    decreases s,
{
    match s {
        Stmt::For { var, lo, hi, body } => StmtView::For {
            var,
            lo: lo@,
            hi: hi@,
            body: Seq::new(
                body@.len(),
                |i: int|
                    if 0 <= i < body@.len() {
                        stmt_view(body@[i])
                    } else {
                        arbitrary()
                    },
            ),
        },
        Stmt::Assign { target, value } => StmtView::Assign { target: target@, value: value@ },
    }
}

impl View for Stmt {
    type V = StmtView;

    open spec fn view(&self) -> StmtView {
        stmt_view(*self)
    }
}

/// What the statements hold.
pub open spec fn stmt_views(body: Seq<Stmt>) -> Seq<StmtView> {
    body.map_values(|s: Stmt| s@)
}

/// The view of a loop is the loop over the views of its body.
pub proof fn lemma_for_view(var: LoopVar, lo: AffineExpr, hi: AffineExpr, body: Vec<Stmt>)
    ensures
        (Stmt::For { var, lo, hi, body })@ == (StmtView::For {
            var,
            lo: lo@,
            hi: hi@,
            body: stmt_views(body@),
        }),
{
    let s = Stmt::For { var, lo, hi, body };
    assert(s@->For_body =~= stmt_views(body@));
}

/// Two spaces for each level.
pub open spec fn indent_text(level: nat) -> Seq<char>
    decreases level,
{
    if level == 0 {
        Seq::empty()
    } else {
        indent_text((level - 1) as nat) + "  "@
    }
}

/// The text of a statement at an indentation level.
pub open spec fn stmt_text(s: StmtView, level: nat) -> Seq<char>
    decreases s, 0nat,
{
    match s {
        StmtView::For { var, lo, hi, body } => indent_text(level) + "for "@ + var.text() + " in "@
            + lo.text() + ".."@ + hi.text() + " {\n"@ + stmts_text(body, level + 1) + indent_text(
            level,
        ) + "}\n"@,
        StmtView::Assign { target, value } => indent_text(level) + ref_text(target) + " = "@
            + scalar_text(value) + "\n"@,
    }
}

/// The text of statements, one after the other.
pub open spec fn stmts_text(body: Seq<StmtView>, level: nat) -> Seq<char>
    decreases body, body.len(),
{
    if body.len() == 0 {
        Seq::empty()
    } else {
        stmts_text(body.drop_last(), level) + stmt_text(body.last(), level)
    }
}

/// A lowered affine loop kernel.
#[derive(Debug)]
pub struct Kernel {
    pub buffers: Vec<Buffer>,
    pub body: Vec<Stmt>,
    pub inputs: Vec<BufferId>,
    pub outputs: Vec<BufferId>,
    pub output_shapes: Vec<Shape>,
}

/// The contents of a [`Kernel`].
pub struct KernelView {
    pub buffers: Seq<BufferView>,
    pub body: Seq<StmtView>,
    pub inputs: Seq<BufferId>,
    pub outputs: Seq<BufferId>,
    pub output_shapes: Seq<Seq<nat>>,
}

/// What the buffers hold.
pub open spec fn buffer_views(buffers: Seq<Buffer>) -> Seq<BufferView> {
    buffers.map_values(|b: Buffer| b@)
}

/// What the shapes hold.
pub open spec fn shape_views(shapes: Seq<Shape>) -> Seq<Seq<nat>> {
    shapes.map_values(|s: Shape| s@)
}

impl View for Kernel {
    type V = KernelView;

    open spec fn view(&self) -> KernelView {
        KernelView {
            buffers: buffer_views(self.buffers@),
            body: stmt_views(self.body@),
            inputs: self.inputs@,
            outputs: self.outputs@,
            output_shapes: shape_views(self.output_shapes@),
        }
    }
}

/// The text of one line of the buffer list.
pub open spec fn buffer_text(b: BufferView) -> Seq<char> {
    "    "@ + b.id.text() + " "@ + b.name + shape_text(b.shape) + " role="@ + b.role.text() + "\n"@
}

/// The header and the first `n` lines of the buffer list.
pub open spec fn buffers_text(buffers: Seq<BufferView>, n: nat) -> Seq<char>
    decreases n,
{
    if n == 0 {
        "kernel {\n  buffers:\n"@
    } else {
        buffers_text(buffers, (n - 1) as nat) + buffer_text(buffers[n - 1])
    }
}

/// The given text and the first `n` output ids, each after a space.
pub open spec fn outputs_text(before: Seq<char>, outputs: Seq<BufferId>, n: nat) -> Seq<char>
    decreases n,
{
    if n == 0 {
        before
    } else {
        outputs_text(before, outputs, (n - 1) as nat) + " "@ + outputs[n - 1].text()
    }
}

impl KernelView {
    /// The text of the kernel.
    pub open spec fn text(self) -> Seq<char> {
        let head = buffers_text(self.buffers, self.buffers.len()) + "  body:\n"@ + stmts_text(
            self.body,
            2,
        ) + "  outputs:"@;
        outputs_text(head, self.outputs, self.outputs.len()) + "\n}"@
    }
}

impl BufferRole {
    /// Copies the role.
    pub fn copy(&self) -> (r: Self)
        ensures
            r@ == self@,
    {
        match self {
            BufferRole::Input(name) => BufferRole::Input(name.clone()),
            BufferRole::Const(data) => BufferRole::Const(data.clone()),
            BufferRole::Temp => BufferRole::Temp,
            BufferRole::Output => BufferRole::Output,
        }
    }

    /// Renders the role.
    fn to_text(&self) -> (r: String)
        ensures
            r@ == self@.text(),
    {
        match self {
            BufferRole::Input(name) => String::from_str("input(")
                .concat(quoted(name.as_str()).as_str())
                .concat(")"),
            BufferRole::Const(_) => String::from_str("const"),
            BufferRole::Temp => String::from_str("temp"),
            BufferRole::Output => String::from_str("output"),
        }
    }
}

impl Buffer {
    /// Creates a buffer.
    #[must_use]
    pub fn new(id: BufferId, name: String, shape: Shape, role: BufferRole) -> (r: Self)
        ensures
            r@ == (BufferView { id, name: name@, shape: shape@, role: role@ }),
            r.role == role,
    {
        Buffer { id, name, shape, role }
    }

    /// Returns this buffer's id.
    #[must_use]
    pub fn id(&self) -> (r: BufferId)
        ensures
            r == self@.id,
    {
        self.id
    }

    /// Returns this buffer's display name.
    #[must_use]
    pub fn name(&self) -> (r: &str)
        ensures
            r@ == self@.name,
    {
        self.name.as_str()
    }

    /// Returns this buffer's logical shape.
    #[must_use]
    pub fn shape(&self) -> (r: &Shape)
        ensures
            r@ == self@.shape,
    {
        &self.shape
    }

    /// Returns this buffer's role.
    #[must_use]
    pub fn role(&self) -> (r: &BufferRole)
        ensures
            r@ == self@.role,
    {
        &self.role
    }
}

impl Clone for BufferRef {
    fn clone(&self) -> (r: Self)
        ensures
            r@ == self@,
    {
        BufferRef { buffer: self.buffer, index: self.index.clone() }
    }
}

impl BufferRef {
    fn to_text(&self) -> (r: String)
        ensures
            r@ == ref_text(self@),
    {
        self.buffer.to_text()
            .concat("[")
            .concat(self.index.to_text().as_str())
            .concat("]")
    }
}

impl ScalarExpr {
    fn to_text(&self) -> (r: String)
        ensures
            r@ == scalar_text(self@),
        decreases self,
    {
        match self {
            ScalarExpr::Load(reference) => reference.to_text(),
            ScalarExpr::ConstScalar(value) => value.to_text(),
            ScalarExpr::Add(left, right) => String::from_str("(")
                .concat(left.to_text().as_str())
                .concat(" + ")
                .concat(right.to_text().as_str())
                .concat(")"),
            ScalarExpr::Sub(left, right) => String::from_str("(")
                .concat(left.to_text().as_str())
                .concat(" - ")
                .concat(right.to_text().as_str())
                .concat(")"),
            ScalarExpr::Mul(left, right) => String::from_str("(")
                .concat(left.to_text().as_str())
                .concat(" * ")
                .concat(right.to_text().as_str())
                .concat(")"),
            ScalarExpr::Neg(input) => String::from_str("(-")
                .concat(input.to_text().as_str())
                .concat(")"),
            ScalarExpr::Relu(input) => String::from_str("relu(")
                .concat(input.to_text().as_str())
                .concat(")"),
        }
    }
}

/// Returns two spaces for each level.
pub(crate) fn indent(level: usize) -> (r: String)
    ensures
        r@ == indent_text(level as nat),
{
    let mut out = String::new();
    let mut i: usize = 0;
    while i < level
        invariant
            i <= level,
            out@ == indent_text(i as nat),
        decreases level - i,
    {
        out.append("  ");
        i += 1;
    }
    out
}

fn format_stmt(stmt: &Stmt, pad: &String, Ghost(level): Ghost<nat>) -> (r: String)
    requires
        pad@ == indent_text(level),
    ensures
        r@ == stmt_text(stmt@, level),
    decreases stmt, 0nat,
{
    match stmt {
        Stmt::For { var, lo, hi, body } => {
            proof {
                lemma_for_view(*var, *lo, *hi, *body);
            }
            let deeper = pad.clone().concat("  ");
            pad.clone()
                .concat("for ")
                .concat(var.to_text().as_str())
                .concat(" in ")
                .concat(lo.to_text().as_str())
                .concat("..")
                .concat(hi.to_text().as_str())
                .concat(" {\n")
                .concat(format_stmts(body, &deeper, Ghost(level + 1)).as_str())
                .concat(pad.as_str())
                .concat("}\n")
        }
        Stmt::Assign { target, value } => pad.clone().concat(target.to_text().as_str())
            .concat(" = ")
            .concat(value.to_text().as_str())
            .concat("\n"),
    }
}

fn format_stmts(body: &Vec<Stmt>, pad: &String, Ghost(level): Ghost<nat>) -> (r: String)
    requires
        pad@ == indent_text(level),
    ensures
        r@ == stmts_text(stmt_views(body@), level),
    decreases body, 1nat,
{
    let ghost views = stmt_views(body@);
    let mut out = String::new();
    let mut i: usize = 0;
    while i < body.len()
        invariant
            i <= body@.len(),
            views == stmt_views(body@),
            pad@ == indent_text(level),
            out@ == stmts_text(views.take(i as int), level),
        decreases body@.len() - i,
    {
        proof {
            assert(views.take(i as int + 1).drop_last() =~= views.take(i as int));
            assert(views.take(i as int + 1).last() == body@[i as int]@);
        }
        out.append(format_stmt(&body[i], pad, Ghost(level)).as_str());
        i += 1;
    }
    proof {
        assert(views.take(i as int) =~= views);
    }
    out
}

impl Kernel {
    /// Creates a kernel from buffers, statements, inputs, and outputs.
    ///
    /// Each output has the shape of its buffer, or the empty shape where it
    /// names no buffer.
    #[must_use]
    pub fn new(
        buffers: Vec<Buffer>,
        body: Vec<Stmt>,
        inputs: Vec<BufferId>,
        outputs: Vec<BufferId>,
    ) -> (r: Self)
        ensures
            r@.buffers == buffer_views(buffers@),
            r@.body == stmt_views(body@),
            r@.inputs == inputs@,
            r@.outputs == outputs@,
            r@.output_shapes.len() == outputs@.len(),
            forall|k: int|
                0 <= k < outputs@.len() ==> #[trigger] r@.output_shapes[k] == (if outputs@[k].0
                    < buffers@.len() {
                    buffers@[outputs@[k].0 as int]@.shape
                } else {
                    Seq::empty()
                }),
    {
        let mut output_shapes: Vec<Shape> = Vec::new();
        let mut k: usize = 0;
        while k < outputs.len()
            invariant
                k <= outputs@.len(),
                output_shapes@.len() == k,
                forall|j: int|
                    0 <= j < k ==> (#[trigger] output_shapes@[j])@ == (if outputs@[j].0
                        < buffers@.len() {
                        buffers@[outputs@[j].0 as int]@.shape
                    } else {
                        Seq::empty()
                    }),
            decreases outputs@.len() - k,
        {
            let index: usize = outputs[k].0 as usize;
            if index < buffers.len() {
                output_shapes.push(buffers[index].shape.clone());
            } else {
                let shape = Shape::new(Vec::new());
                proof {
                    assert(shape@ =~= Seq::empty());
                }
                output_shapes.push(shape);
            }
            k += 1;
        }
        Kernel { buffers, body, inputs, outputs, output_shapes }
    }

    /// Creates a kernel with explicit logical output shapes.
    ///
    /// A reshaped output shares its operand's buffer under a shape of its own.
    #[must_use]
    pub fn new_with_output_shapes(
        buffers: Vec<Buffer>,
        body: Vec<Stmt>,
        inputs: Vec<BufferId>,
        outputs: Vec<BufferId>,
        output_shapes: Vec<Shape>,
    ) -> (r: Self)
        ensures
            r@ == (KernelView {
                buffers: buffer_views(buffers@),
                body: stmt_views(body@),
                inputs: inputs@,
                outputs: outputs@,
                output_shapes: shape_views(output_shapes@),
            }),
    {
        Kernel { buffers, body, inputs, outputs, output_shapes }
    }

    /// Returns all buffers.
    #[must_use]
    pub fn buffers(&self) -> (r: &[Buffer])
        ensures
            buffer_views(r@) == self@.buffers,
    {
        self.buffers.as_slice()
    }

    /// Returns kernel statements.
    #[must_use]
    pub fn body(&self) -> (r: &[Stmt])
        ensures
            stmt_views(r@) == self@.body,
    {
        self.body.as_slice()
    }

    /// Returns input buffer ids.
    #[must_use]
    pub fn inputs(&self) -> (r: &[BufferId])
        ensures
            r@ == self@.inputs,
    {
        self.inputs.as_slice()
    }

    /// Returns output buffer ids.
    #[must_use]
    pub fn outputs(&self) -> (r: &[BufferId])
        ensures
            r@ == self@.outputs,
    {
        self.outputs.as_slice()
    }

    /// Returns logical output shapes.
    #[must_use]
    pub fn output_shapes(&self) -> (r: &[Shape])
        ensures
            shape_views(r@) == self@.output_shapes,
    {
        self.output_shapes.as_slice()
    }

    /// Returns a buffer by id.
    #[must_use]
    pub fn buffer(&self, id: BufferId) -> (r: Option<&Buffer>)
        ensures
            match r {
                Some(b) => id.0 < self@.buffers.len() && b@ == self@.buffers[id.0 as int]
                    && *b == self.buffers@[id.0 as int],
                None => id.0 >= self@.buffers.len(),
            },
    {
        if (id.0 as usize) < self.buffers.len() {
            Some(&self.buffers[id.0 as usize])
        } else {
            None
        }
    }

    /// Renders the kernel in a stable format.
    #[must_use]
    pub fn to_text(&self) -> (r: String)
        ensures
            r@ == self@.text(),
    {
        let mut out = String::from_str("kernel {\n  buffers:\n");
        let mut i: usize = 0;
        while i < self.buffers.len()
            invariant
                i <= self@.buffers.len(),
                out@ == buffers_text(self@.buffers, i as nat),
            decreases self@.buffers.len() - i,
        {
            let b = &self.buffers[i];
            let line = String::from_str("    ")
                .concat(b.id.to_text().as_str())
                .concat(" ")
                .concat(b.name.as_str())
                .concat(b.shape.to_text().as_str())
                .concat(" role=")
                .concat(b.role.to_text().as_str())
                .concat("\n");
            out.append(line.as_str());
            i += 1;
        }
        out.append("  body:\n");
        out.append(format_stmts(&self.body, &indent(2), Ghost(2)).as_str());
        out.append("  outputs:");
        let ghost head = out@;
        let mut i: usize = 0;
        while i < self.outputs.len()
            invariant
                i <= self@.outputs.len(),
                out@ == outputs_text(head, self@.outputs, i as nat),
            decreases self@.outputs.len() - i,
        {
            out.append(" ");
            out.append(self.outputs[i].to_text().as_str());
            i += 1;
        }
        out.append("\n}");
        out
    }
}

} // verus!
