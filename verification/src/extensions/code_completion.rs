//! The built-in code completion extension: JSON keyword and snippet
//! completion, toggled from the extension list.

use vstd::prelude::*;
use crate::extensions::ExtensionManifest;
use crate::extensions::native::{
    builtin_manifest, enabled_state, load_enabled_state, opt_view, BuiltinExtension,
    NativeExtension, NativeRegistry,
};

verus! {

/// The code completion extension and whether it is enabled.
pub struct CodeCompletionExtension {
    pub enabled: bool,
}

impl CodeCompletionExtension {
    /// The extension, enabled as the state file's text says (enabled when
    /// the file is missing or silent about it).
    pub fn new(config: Option<&str>) -> (r: Self)
        ensures
            r.enabled == enabled_state(opt_view(config), "code-completion"@),
    {
        CodeCompletionExtension { enabled: load_enabled_state(config, "code-completion") }
    }
}

impl NativeExtension for CodeCompletionExtension {
    open spec fn spec_id(&self) -> Seq<char> {
        "code-completion"@
    }

    open spec fn spec_enabled(&self) -> bool {
        self.enabled
    }

    fn id(&self) -> (r: &str) {
        "code-completion"
    }

    fn manifest(&self) -> (r: ExtensionManifest)
        ensures
            r.name@ == "Code Completion"@,
            r.version@ == "1.0.0"@,
            r.author@ == "Built-in"@,
            r.icon is None,
            r.is_native,
            r.contributions.is_empty(),
    {
        builtin_manifest(
            "code-completion",
            "Code Completion",
            "Intelligent code completion with fuzzy matching, context-aware ranking, and multi-language support. Trigger with Ctrl+Space or F1.",
            self.enabled,
            crate::extensions::ExtensionContributions::default(),
        )
    }

    fn is_enabled(&self) -> (r: bool) {
        self.enabled
    }

    fn set_enabled(&mut self, enabled: bool) {
        self.enabled = enabled;
    }
}

/// Register the code completion extension, enabled as the state file's text
/// says.
pub fn register(registry: &mut NativeRegistry<BuiltinExtension>, config: Option<&str>)
    ensures
        final(registry).ids() == old(registry).ids().push("code-completion"@),
        final(registry).enabled() == old(registry).enabled().push(
            enabled_state(opt_view(config), "code-completion"@),
        ),
{
    registry.register(BuiltinExtension::CodeCompletion(CodeCompletionExtension::new(config)));
}

/// Whether code completion is enabled in this registry (enabled when it was
/// never registered).
pub fn is_enabled(registry: &NativeRegistry<BuiltinExtension>) -> (r: bool)
    ensures
        r == registry.enabled_of("code-completion"@),
{
    registry.is_enabled_by_id("code-completion")
}

} // verus!
