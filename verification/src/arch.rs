//! Model of the architecture execution context.
//!
//! A context is saved CPU state that lets an execution unit resume a
//! thread of control exactly where it left off. The model records which
//! construction produced the state — enough to state what a context will
//! do when first switched to — and whether the context is currently
//! running. The switch primitive enforces the one rule the hardware
//! cannot: exactly one context is current per execution unit, and no
//! saved context is ever overwritten while it still holds a suspended
//! thread.

use vstd::prelude::*;

verus! {

/// The register snapshot captured when control enters privileged mode.
#[derive(Clone, Copy, PartialEq, Eq, Structural)]
pub struct TrapFrame {
    /// Address at which user execution resumes.
    pub ip: usize,
    /// User stack pointer at the moment of the trap.
    pub sp: usize,
}

/// Saved execution state of one thread of control.
#[derive(Clone, Copy, PartialEq, Eq, Structural)]
pub enum Context {
    /// No saved state: this control flow is the one currently executing.
    Running,
    /// Will begin a non-returning kernel routine `entry(arg)` on the given
    /// kernel stack, with the given address space active.
    KernelEntry { entry: usize, arg: usize, kstack_top: usize, token: usize },
    /// Will drop to unprivileged mode at `entry_addr` with the given user
    /// stack, bit width and address space.
    UserEntry { entry_addr: usize, ustack_top: usize, kstack_top: usize, is32: bool, token: usize },
    /// Will resume user execution as captured by `tf`, as if the original
    /// call had returned, on a new kernel stack and address space.
    Forked { tf: TrapFrame, kstack_top: usize, token: usize },
    /// Like a forked context, but over the caller's own address space,
    /// with its own user stack pointer and thread-local-storage base.
    Cloned { tf: TrapFrame, ustack_top: usize, kstack_top: usize, tls: usize, token: usize },
    /// A register snapshot saved by a switch away from this context.
    Saved,
}

impl Context {
    /// A placeholder for the very first thread of control: it is already
    /// executing, so there is nothing to restore.
    pub fn null() -> (r: Self)
        ensures
            r is Running,
    {
        Context::Running
    }

    /// A context that will run `entry(arg)` in privileged mode.
    pub fn new_kernel_thread(entry: usize, arg: usize, kstack_top: usize, token: usize) -> (r:
        Self)
        ensures
            r == (Context::KernelEntry { entry, arg, kstack_top, token }),
    {
        Context::KernelEntry { entry, arg, kstack_top, token }
    }

    /// A context that will enter user mode at `entry_addr`.
    pub fn new_user_thread(
        entry_addr: usize,
        ustack_top: usize,
        kstack_top: usize,
        is32: bool,
        token: usize,
    ) -> (r: Self)
        ensures
            r == (Context::UserEntry { entry_addr, ustack_top, kstack_top, is32, token }),
    {
        Context::UserEntry { entry_addr, ustack_top, kstack_top, is32, token }
    }

    /// A context that will resume the execution captured in `tf`.
    pub fn new_fork(tf: &TrapFrame, kstack_top: usize, token: usize) -> (r: Self)
        ensures
            r == (Context::Forked { tf: *tf, kstack_top, token }),
    {
        Context::Forked { tf: *tf, kstack_top, token }
    }

    /// A context that will resume the execution captured in `tf` on the
    /// caller's address space, with its own stack and TLS base.
    pub fn new_clone(tf: &TrapFrame, ustack_top: usize, kstack_top: usize, token: usize, tls: usize) -> (r: Self)
        ensures
            r == (Context::Cloned { tf: *tf, ustack_top, kstack_top, tls, token }),
    {
        Context::Cloned { tf: *tf, ustack_top, kstack_top, tls, token }
    }

    /// Save the caller's state into `self` and restore `target`'s: after
    /// the switch, `target` is the one current context and `self` holds a
    /// saved suspension. Only the currently running context may switch
    /// away, and never onto another running context.
    pub fn switch(&mut self, target: &mut Context)
        requires
            *old(self) is Running,
            !(*old(target) is Running),
        ensures
            *final(self) is Saved,
            *final(target) is Running,
    {
        *self = Context::Saved;
        *target = Context::Running;
    }
}

} // verus!
