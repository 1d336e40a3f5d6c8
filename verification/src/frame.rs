//! Frames: one per running body, each with its locals and its pending work.
use crate::ast::NodeId;
use crate::cont::Cont;
use crate::cont::ContView;
use crate::cont::Work;
use crate::observe::Position;
use crate::span::ModuleId;
use crate::value::CalIdx;
use crate::value::CellIdx;
use crate::value::Value;
use vstd::prelude::*;

verus! {

/// A frame's slot for a local.
#[derive(Clone, Copy, PartialEq, Eq, Debug, Structural)]
pub enum Local {
    /// The value itself, once bound.
    Direct(Option<Value>),
    /// A cell that closures share.
    Boxed(CellIdx),
}

/// Who consumes a block: what its `break` leaves.
#[derive(Clone, Copy, PartialEq, Eq, Debug, Structural)]
pub enum Consumer {
    /// The call of a frame.
    DoodleCall {
        /// The frame's index.
        frame: usize,
        /// The frame's serial.
        serial: u64,
    },
    /// A native function, with that many frames beneath it.
    Native {
        /// The number of frames beneath.
        boundary: usize,
    },
}

/// What a frame runs.
#[derive(Clone, Copy, PartialEq, Eq, Debug, Structural)]
pub enum FrameKind {
    /// A module's top level.
    ModuleTopLevel,
    /// A callable.
    Callable {
        /// The callable as it was called.
        cal: CalIdx,
    },
    /// A block argument's body.
    Block {
        /// The frame it was written in.
        defining: usize,
        /// That frame's serial.
        defining_serial: u64,
        /// Who consumes it.
        consumer: Consumer,
    },
}

/// A block argument bound to a block parameter.
#[derive(Clone, Copy, PartialEq, Eq, Debug, Structural)]
pub struct BlockDescriptor {
    /// The frame it was written in.
    pub defining: usize,
    /// That frame's serial.
    pub defining_serial: u64,
    /// Its body, among the module's.
    pub callable: u32,
}

/// A frame.
pub struct Frame {
    /// What it runs.
    pub kind: FrameKind,
    /// The module whose tree and names it uses.
    pub module: ModuleId,
    /// Its locals.
    pub locals: Vec<Local>,
    /// Its pending work, next last.
    pub conts: Vec<Cont>,
    /// Its identity.
    pub serial: u64,
    /// The block argument it received.
    pub block_param: Option<BlockDescriptor>,
    /// How many tail calls it absorbed.
    pub tail_count: u64,
    /// Where the call that entered it stands.
    pub call_site: Option<Position>,
    /// How many dynamic bindings were saved when it was entered.
    pub dyn_depth: usize,
}

/// The contents of a frame.
pub struct FrameView {
    /// What it runs.
    pub kind: FrameKind,
    /// The module whose tree and names it uses.
    pub module: ModuleId,
    /// Its locals.
    pub locals: Seq<Local>,
    /// Its pending work, next last.
    pub conts: Seq<ContView>,
    /// Its identity.
    pub serial: u64,
    /// The block argument it received.
    pub block_param: Option<BlockDescriptor>,
    /// How many tail calls it absorbed.
    pub tail_count: u64,
    /// Where the call that entered it stands.
    pub call_site: Option<Position>,
    /// How many dynamic bindings were saved when it was entered.
    pub dyn_depth: usize,
}

/// The contents of some continuations.
pub open spec fn conts_view(conts: Seq<Cont>) -> Seq<ContView> {
    conts.map_values(|c: Cont| c@)
}

impl View for Frame {
    type V = FrameView;

    open spec fn view(&self) -> FrameView {
        FrameView {
            kind: self.kind,
            module: self.module,
            locals: self.locals@,
            conts: conts_view(self.conts@),
            serial: self.serial,
            block_param: self.block_param,
            tail_count: self.tail_count,
            call_site: self.call_site,
            dyn_depth: self.dyn_depth,
        }
    }
}

/// The pending work of a body: its statements, then its end.
pub open spec fn body_work(body: NodeId) -> Seq<ContView> {
    seq![Work::ReturnBarrier, Work::Statements { block: body, next: 0 }]
}

fn body_conts(body: NodeId) -> (r: Vec<Cont>)
    ensures
        conts_view(r@) == body_work(body),
{
    let mut r: Vec<Cont> = Vec::new();
    r.push(Work::ReturnBarrier);
    r.push(Work::Statements { block: body, next: 0 });
    assert(conts_view(r@) =~= body_work(body));
    r
}

impl FrameView {
    /// A module's top-level frame.
    pub open spec fn top_level(module: ModuleId, locals: Seq<Local>, root: NodeId, serial: u64) -> FrameView {
        FrameView {
            kind: FrameKind::ModuleTopLevel,
            module,
            locals,
            conts: seq![Work::Statements { block: root, next: 0 }],
            serial,
            block_param: None,
            tail_count: 0,
            call_site: None,
            dyn_depth: 0,
        }
    }

    /// A callable's frame.
    pub open spec fn of_callable(
        module: ModuleId,
        cal: CalIdx,
        locals: Seq<Local>,
        body: NodeId,
        serial: u64,
        block_param: Option<BlockDescriptor>,
        call_site: Position,
        dyn_depth: usize,
    ) -> FrameView {
        FrameView {
            kind: FrameKind::Callable { cal },
            module,
            locals,
            conts: body_work(body),
            serial,
            block_param,
            tail_count: 0,
            call_site: Some(call_site),
            dyn_depth,
        }
    }

    /// The frame taken over by a tail call: its serial and its place stay.
    pub open spec fn reused(
        self,
        module: ModuleId,
        cal: CalIdx,
        locals: Seq<Local>,
        body: NodeId,
        block_param: Option<BlockDescriptor>,
        call_site: Position,
    ) -> FrameView {
        FrameView {
            kind: FrameKind::Callable { cal },
            module,
            locals,
            conts: body_work(body),
            serial: self.serial,
            block_param,
            tail_count: if self.tail_count < u64::MAX {
                (self.tail_count + 1) as u64
            } else {
                u64::MAX
            },
            call_site: Some(call_site),
            dyn_depth: self.dyn_depth,
        }
    }

    /// A block's frame.
    pub open spec fn of_block(
        module: ModuleId,
        desc: BlockDescriptor,
        consumer: Consumer,
        locals: Seq<Local>,
        body: NodeId,
        serial: u64,
        call_site: Option<Position>,
        dyn_depth: usize,
    ) -> FrameView {
        FrameView {
            kind: FrameKind::Block {
                defining: desc.defining,
                defining_serial: desc.defining_serial,
                consumer,
            },
            module,
            locals,
            conts: body_work(body),
            serial,
            block_param: None,
            tail_count: 0,
            call_site,
            dyn_depth,
        }
    }
}

impl Frame {
    /// A module's top-level frame.
    pub fn module_top_level(module: ModuleId, locals: Vec<Local>, root: NodeId, serial: u64) -> (r:
        Frame)
        ensures
            r@ == FrameView::top_level(module, locals@, root, serial),
    {
        let mut conts: Vec<Cont> = Vec::new();
        conts.push(Work::Statements { block: root, next: 0 });
        assert(conts_view(conts@) =~= seq![Work::Statements { block: root, next: 0 }]);
        Frame {
            kind: FrameKind::ModuleTopLevel,
            module,
            locals,
            conts,
            serial,
            block_param: None,
            tail_count: 0,
            call_site: None,
            dyn_depth: 0,
        }
    }

    /// A callable's frame.
    pub fn callable(
        module: ModuleId,
        cal: CalIdx,
        locals: Vec<Local>,
        body: NodeId,
        serial: u64,
        block_param: Option<BlockDescriptor>,
        call_site: Position,
        dyn_depth: usize,
    ) -> (r: Frame)
        ensures
            r@ == FrameView::of_callable(
                module,
                cal,
                locals@,
                body,
                serial,
                block_param,
                call_site,
                dyn_depth,
            ),
    {
        Frame {
            kind: FrameKind::Callable { cal },
            module,
            locals,
            conts: body_conts(body),
            serial,
            block_param,
            tail_count: 0,
            call_site: Some(call_site),
            dyn_depth,
        }
    }

    /// Takes the frame over for a tail call.
    pub fn reuse_as_callable(
        &mut self,
        module: ModuleId,
        cal: CalIdx,
        locals: Vec<Local>,
        body: NodeId,
        block_param: Option<BlockDescriptor>,
        call_site: Position,
    )
        ensures
            final(self)@ == old(self)@.reused(module, cal, locals@, body, block_param, call_site),
    {
        self.kind = FrameKind::Callable { cal };
        self.module = module;
        self.locals = locals;
        self.conts = body_conts(body);
        self.block_param = block_param;
        self.tail_count = self.tail_count.saturating_add(1);
        self.call_site = Some(call_site);
    }

    /// A block's frame.
    pub fn block(
        module: ModuleId,
        desc: BlockDescriptor,
        consumer: Consumer,
        locals: Vec<Local>,
        body: NodeId,
        serial: u64,
        call_site: Option<Position>,
        dyn_depth: usize,
    ) -> (r: Frame)
        ensures
            r@ == FrameView::of_block(
                module,
                desc,
                consumer,
                locals@,
                body,
                serial,
                call_site,
                dyn_depth,
            ),
    {
        Frame {
            kind: FrameKind::Block {
                defining: desc.defining,
                defining_serial: desc.defining_serial,
                consumer,
            },
            module,
            locals,
            conts: body_conts(body),
            serial,
            block_param: None,
            tail_count: 0,
            call_site,
            dyn_depth,
        }
    }
}

/// A tail call keeps the frame's identity and the dynamic bindings it was entered under.
pub proof fn law_tail_call_keeps_the_frame(
    f: FrameView,
    module: ModuleId,
    cal: CalIdx,
    locals: Seq<Local>,
    body: NodeId,
    block_param: Option<BlockDescriptor>,
    call_site: Position,
)
    ensures
        f.reused(module, cal, locals, body, block_param, call_site).serial == f.serial,
        f.reused(module, cal, locals, body, block_param, call_site).dyn_depth == f.dyn_depth,
        f.tail_count < u64::MAX ==> f.reused(
            module,
            cal,
            locals,
            body,
            block_param,
            call_site,
        ).tail_count == f.tail_count + 1,
{
}

} // verus!
