//! What the library assumes of the jni crate: its types, carried through
//! opaquely, and the two calls into the Java virtual machine.
use vstd::prelude::*;

use jni::errors::Error;
use jni::objects::JClass;
use jni::{JNIEnv, JavaVM};

verus! {

/// A handle to a running Java virtual machine, as jni::JavaVM.
#[verifier::external_type_specification]
#[verifier::external_body]
pub struct ExJavaVM(JavaVM);

/// A thread-bound execution context, as jni::JNIEnv.
#[verifier::external_type_specification]
#[verifier::external_body]
pub struct ExJNIEnv<'a>(JNIEnv<'a>);

/// A reference to a resolved class, as jni::objects::JClass.
#[verifier::external_type_specification]
#[verifier::external_body]
pub struct ExJClass<'a>(JClass<'a>);

/// The error type of the jni crate.
#[verifier::external_type_specification]
#[verifier::external_body]
pub struct ExJniError(Error);

/// Relies on jni::JavaVM::attach_current_thread_as_daemon: attaches the
/// calling thread as a daemon (reusing an existing attachment) and returns
/// its context. Whether it succeeds depends on the virtual machine, so
/// nothing is promised of the outcome.
#[verifier::external_body]
pub(crate) fn attach_daemon<'a>(vm: &'a JavaVM) -> (r: Result<JNIEnv<'a>, Error>) {
    vm.attach_current_thread_as_daemon()
}

/// Relies on jni::JNIEnv::find_class: asks the virtual machine to resolve a
/// class by name. Whether it succeeds, and which reference comes back,
/// depends on the virtual machine, so nothing is promised of the outcome.
#[verifier::external_body]
pub(crate) fn find_class<'a>(env: &JNIEnv<'a>, name: &str) -> (r: Result<JClass<'a>, Error>) {
    env.find_class(name)
}

} // verus!
