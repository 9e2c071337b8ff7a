//! The slot that holds the registered virtual machine, and the execution
//! contexts derived from it.
use vstd::prelude::*;

use crate::runtime::attach_daemon;
use jni::{JNIEnv, JavaVM};

verus! {

/// Why no execution context could be had.
#[derive(Clone, Copy, Debug, PartialEq, Eq, Structural)]
pub enum ContextError {
    /// No virtual machine is registered.
    NoRuntime,
    /// The virtual machine refused to attach the calling thread.
    AttachFailed,
}

/// Holds at most one virtual machine. Replacing or clearing it is allowed.
pub struct VmRegistry {
    vm: Option<JavaVM>,
}

impl View for VmRegistry {
    type V = Option<JavaVM>;

    closed spec fn view(&self) -> Option<JavaVM> {
        self.vm
    }
}

impl VmRegistry {
    /// A registry with no virtual machine.
    pub fn new() -> (r: VmRegistry)
        ensures
            r@ is None,
    {
        VmRegistry { vm: None }
    }

    /// Registers `vm`, replacing whatever was registered; `None` clears the slot.
    pub fn set_jvm(&mut self, vm: Option<JavaVM>)
        ensures
            final(self)@ == vm,
    {
        self.vm = vm;
    }

    /// The registered virtual machine, if any.
    pub fn jvm(&self) -> (r: Option<&JavaVM>)
        ensures
            r is None <==> self@ is None,
            r matches Some(vm) ==> self@ == Some(*vm),
    {
        match &self.vm {
            Some(vm) => Some(vm),
            None => None,
        }
    }

    /// An execution context for the calling thread, attaching it to the
    /// registered virtual machine as a daemon. Fails with `NoRuntime` exactly
    /// when nothing is registered; otherwise the outcome is the virtual
    /// machine's, and a refusal is `AttachFailed`.
    pub fn context(&self) -> (r: Result<JNIEnv<'_>, ContextError>)
        ensures
            r == Err::<JNIEnv<'_>, ContextError>(ContextError::NoRuntime) <==> self@ is None,
    {
        match self.jvm() {
            None => Err(ContextError::NoRuntime),
            Some(vm) => match attach_daemon(vm) {
                Ok(env) => Ok(env),
                Err(_) => Err(ContextError::AttachFailed),
            },
        }
    }

    /// An execution context for the calling thread, or `None` where none can
    /// be had; never fails loudly. With nothing registered it is `None`.
    pub fn get_env_safe(&self) -> (r: Option<JNIEnv<'_>>)
        ensures
            self@ is None ==> r is None,
    {
        match self.context() {
            Ok(env) => Some(env),
            Err(_) => None,
        }
    }
}

} // verus!
