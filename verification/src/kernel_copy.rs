//! Copies of kernels and their parts.
use vstd::prelude::*;

use crate::affine::AffineExpr;
use crate::loop_ir::{
    buffer_views, lemma_for_view, shape_views, stmt_views, Buffer, BufferRole, Kernel, ScalarExpr,
    Stmt,
};
use crate::shape::Shape;

verus! {

impl Clone for BufferRole {
    fn clone(&self) -> (r: Self)
        ensures
            r@ == self@,
    {
        self.copy()
    }
}

impl Clone for Buffer {
    fn clone(&self) -> (r: Self)
        ensures
            r@ == self@,
    {
        Buffer {
            id: self.id,
            name: self.name.clone(),
            shape: self.shape.clone(),
            role: self.role.copy(),
        }
    }
}

fn copy_scalar(e: &ScalarExpr) -> (r: ScalarExpr)
    ensures
        r@ == e@,
    decreases e,
{
    match e {
        ScalarExpr::Load(reference) => ScalarExpr::Load(reference.clone()),
        ScalarExpr::ConstScalar(v) => ScalarExpr::ConstScalar(v.clone()),
        ScalarExpr::Add(l, r) => ScalarExpr::Add(
            Box::new(copy_scalar(l)),
            Box::new(copy_scalar(r)),
        ),
        ScalarExpr::Sub(l, r) => ScalarExpr::Sub(
            Box::new(copy_scalar(l)),
            Box::new(copy_scalar(r)),
        ),
        ScalarExpr::Mul(l, r) => ScalarExpr::Mul(
            Box::new(copy_scalar(l)),
            Box::new(copy_scalar(r)),
        ),
        ScalarExpr::Neg(x) => ScalarExpr::Neg(Box::new(copy_scalar(x))),
        ScalarExpr::Relu(x) => ScalarExpr::Relu(Box::new(copy_scalar(x))),
    }
}

impl Clone for ScalarExpr {
    fn clone(&self) -> (r: Self)
        ensures
            r@ == self@,
    {
        copy_scalar(self)
    }
}

fn copy_stmt(s: &Stmt) -> (r: Stmt)
    ensures
        r@ == s@,
    decreases s, 0nat,
{
    match s {
        Stmt::Assign { target, value } => Stmt::Assign {
            target: target.clone(),
            value: copy_scalar(value),
        },
        Stmt::For { var, lo, hi, body } => {
            let inner = copy_stmts(body);
            let start: AffineExpr = lo.clone();
            let end: AffineExpr = hi.clone();
            proof {
                lemma_for_view(*var, *lo, *hi, *body);
                lemma_for_view(*var, start, end, inner);
            }
            Stmt::For { var: *var, lo: start, hi: end, body: inner }
        }
    }
}

fn copy_stmts(body: &Vec<Stmt>) -> (r: Vec<Stmt>)
    ensures
        stmt_views(r@) == stmt_views(body@),
    decreases body, 1nat,
{
    let mut copied: Vec<Stmt> = Vec::new();
    let mut i: usize = 0;
    while i < body.len()
        invariant
            i <= body@.len(),
            copied@.len() == i,
            forall|j: int| 0 <= j < i ==> (#[trigger] copied@[j])@ == body@[j]@,
        decreases body@.len() - i,
    {
        copied.push(copy_stmt(&body[i]));
        i += 1;
    }
    proof {
        assert(stmt_views(copied@) =~= stmt_views(body@));
    }
    copied
}

impl Clone for Stmt {
    fn clone(&self) -> (r: Self)
        ensures
            r@ == self@,
    {
        copy_stmt(self)
    }
}

impl Clone for Kernel {
    fn clone(&self) -> (r: Self)
        ensures
            r@ == self@,
    {
        let mut buffers: Vec<Buffer> = Vec::new();
        let mut i: usize = 0;
        while i < self.buffers.len()
            invariant
                i <= self.buffers@.len(),
                buffers@.len() == i,
                forall|j: int| 0 <= j < i ==> (#[trigger] buffers@[j])@ == self.buffers@[j]@,
            decreases self.buffers@.len() - i,
        {
            buffers.push(self.buffers[i].clone());
            i += 1;
        }
        let body = copy_stmts(&self.body);
        let mut output_shapes: Vec<Shape> = Vec::new();
        let mut m: usize = 0;
        while m < self.output_shapes.len()
            invariant
                m <= self.output_shapes@.len(),
                output_shapes@.len() == m,
                forall|j: int|
                    0 <= j < m ==> (#[trigger] output_shapes@[j])@ == self.output_shapes@[j]@,
            decreases self.output_shapes@.len() - m,
        {
            output_shapes.push(self.output_shapes[m].clone());
            m += 1;
        }
        proof {
            assert(buffer_views(buffers@) =~= buffer_views(self.buffers@));
            assert(shape_views(output_shapes@) =~= shape_views(self.output_shapes@));
        }
        Kernel {
            buffers,
            body,
            inputs: crate::data::copied(&self.inputs),
            outputs: crate::data::copied(&self.outputs),
            output_shapes,
        }
    }
}

} // verus!
