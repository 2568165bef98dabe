//! The schema profiles that ship with the library, loaded by name.

use vstd::prelude::*;
use vstd::string::StringSliceAdditionalSpecFns;

use crate::compose::profile_res;
use crate::error::{BsolError, SError};
use crate::grammar::document_unspannable_from;
use crate::loader::{load_profile_from_source, load_source_spec};
use crate::schema::SchemaProfile;
use crate::text::{owned, str_eq};

verus! {

/// Meta-schema for profile documents.
pub const SCHEMA_V1: &'static str = r#"profile "schema.v1" {
  version = 1
  rule "profile" {
    scope = top
    match = keyword
    keyword = profile
    label = required
    cardinality = one
    field "version" { type = u32 }
    nested "rule" {
      match = keyword
      keyword = rule
      extras = true
      nested_extras = true
    }
    nested "import_schema" {
      match = keyword
      keyword = import_schema
      label = required
      extras = true
    }
    nested "extend" {
      match = keyword
      keyword = extend
      extras = true
      nested_extras = true
    }
    nested "migration" {
      match = keyword
      keyword = migration
      extras = true
      nested_extras = true
    }
  }
}
"#;

/// Meta-schema for profile documents, v2 features included.
pub const SCHEMA_V2: &'static str = r#"profile "schema.v2" {
  version = 2
  rule "profile" {
    scope = top
    match = keyword
    keyword = profile
    label = required
    cardinality = one
    field "version" { type = u32 }
    nested "rule" {
      match = keyword
      keyword = rule
      extras = true
      nested_extras = true
      allowed_attrs = [Deprecated]
    }
    nested "import_schema" {
      match = keyword
      keyword = import_schema
      label = required
      field "from" { type = loose required = true }
      field "path" { type = quoted }
      field "url" { type = quoted }
      field "rev" { type = quoted }
      field "package" { type = quoted }
      field "version" { type = quoted }
      field "alias" { type = quoted }
    }
    nested "extend" {
      match = keyword
      keyword = extend
      extras = true
      nested_extras = true
    }
    nested "migration" {
      match = keyword
      keyword = migration
      extras = true
      nested_extras = true
    }
  }
}
"#;

/// `.bproj` project manifests.
pub const PROJECT_V1: &'static str = r#"profile "project.v1" {
  version = 1
  rule "root" {
    scope = top
    match = free_ident
    except = [target, dependency]
    label = forbidden
    cardinality = one
    field "name" { type = quoted required = true }
    field "version" { type = quoted required = true }
    field "root" { type = path required = true }
    field "type" { type = ident }
    field "description" { type = quoted }
    nested "mod" {
      match = keyword
      keyword = mod
      cardinality = zero_or_one
      extras = true
    }
  }
  rule "target" {
    scope = top
    match = keyword
    keyword = target
    label = required
    field "kind" { type = enum_or_quoted values = [App, Lib, Test] required = true }
    field "entry" { type = path }
  }
  rule "dependency" {
    scope = top
    match = keyword
    keyword = dependency
    label = required
    extras = true
  }
}
"#;

/// `.bproj` project manifests with dependency variants, constraints and migration.
pub const PROJECT_V2: &'static str = r#"profile "project.v2" {
  version = 2
  rule "root" {
    scope = top
    match = free_ident
    except = [target, dependency]
    label = forbidden
    cardinality = one
    field "name" { type = quoted required = true }
    field "version" { type = quoted required = true pattern = "^[0-9][0-9.]*$" }
    field "root" { type = path required = true }
    field "type" { type = ident }
    field "description" { type = quoted }
    field "profile_version" { type = loose }
    nested "mod" {
      match = keyword
      keyword = mod
      cardinality = zero_or_one
      extras = true
    }
  }
  rule "target" {
    scope = top
    match = keyword
    keyword = target
    label = required
    field "kind" { type = enum_or_quoted values = [App, Lib, Test] required = true }
    field "entry" { type = path }
  }
  rule "dependency" {
    scope = top
    match = keyword
    keyword = dependency
    label = required
    field "source" { type = enum_or_quoted values = [path, git, registry] required = true }
    field "path" { type = path }
    field "url" { type = quoted }
    field "rev" { type = quoted }
    field "version" { type = quoted }
    variant "path" { require = [path] forbid = [url, rev] }
    variant "git" { require = [url, rev] forbid = [path] }
    variant "registry" { require = [version] }
  }
  migration {
    from = "project.v1"
    detect { profile_version_missing = "true" }
    rewrite {
      add_field = { profile_version = "2" }
    }
  }
}
"#;

/// `.bws` workspace manifests.
pub const WORKSPACE_V1: &'static str = r#"profile "workspace.v1" {
  version = 1
  rule "workspace" {
    scope = top
    match = free_ident
    except = [member]
    label = forbidden
    cardinality = one
    field "name" { type = quoted required = true }
    field "version" { type = quoted }
    field "members" { type = list }
  }
  rule "member" {
    scope = top
    match = keyword
    keyword = member
    label = required
    field "path" { type = path required = true }
  }
}
"#;

/// Runtime manifests.
pub const RUNTIME_V1: &'static str = r#"profile "runtime.v1" {
  version = 1
  rule "runtime" {
    scope = top
    match = keyword
    keyword = runtime
    label = optional
    cardinality = one
    field "entry" { type = path required = true }
    field "heap" { type = u32 }
    field "threads" { type = u32 }
  }
  rule "module" {
    scope = top
    match = keyword
    keyword = module
    label = required
    field "path" { type = path required = true }
    field "lazy" { type = bool }
  }
}
"#;

/// Runtime manifests whose module kinds share a base rule.
pub const RUNTIME_V2: &'static str = r#"profile "runtime.v2" {
  version = 2
  rule "runtime" {
    scope = top
    match = keyword
    keyword = runtime
    label = optional
    cardinality = one
    field "entry" { type = path required = true }
    field "heap" { type = u32 }
    field "threads" { type = u32 min = 1 }
  }
  rule "dispatch_base" {
    scope = nested
    match = keyword
    keyword = dispatch_base
    field "path" { type = path required = true }
    field "lazy" { type = bool default = "false" }
  }
  rule "module" {
    scope = top
    match = keyword
    keyword = module
    label = required
    extends = dispatch_base
  }
  rule "plugin" {
    scope = top
    match = keyword
    keyword = plugin
    label = required
    extends = dispatch_base
    field "api" { type = u32 }
  }
}
"#;

/// Shell layout boards.
pub const BOARD_V1: &'static str = r#"profile "board.v1" {
  version = 1
  rule "board" {
    scope = top
    match = keyword
    keyword = board
    label = required
    cardinality = one
    field "root" { type = quoted required = true }
  }
  rule "node" {
    scope = top
    match = keyword
    keyword = node
    label = required
    field "kind" { type = ident required = true }
    field "widget" { type = quoted }
    field "children" { type = list }
  }
}
"#;

/// Shell layout boards with a format version.
pub const BOARD_V2: &'static str = r#"profile "board.v2" {
  version = 2
  rule "board" {
    scope = top
    match = keyword
    keyword = board
    label = required
    cardinality = one
    field "version" { type = u32 }
    field "root" { type = quoted required = true }
  }
  rule "node" {
    scope = top
    match = keyword
    keyword = node
    label = required
    field "kind" { type = ident required = true }
    field "widget" { type = quoted }
    field "children" { type = list[ident | quoted] }
    field "props" { type = map[ident, loose] }
  }
}
"#;

/// Shell layout boards with cross-block references.
pub const BOARD_V3: &'static str = r#"profile "board.v3" {
  version = 3
  rule "board" {
    scope = top
    match = keyword
    keyword = board
    label = required
    cardinality = one
    field "version" { type = u32 }
    field "root" { type = ref(node) required = true }
  }
  rule "node" {
    scope = top
    match = keyword
    keyword = node
    label = required
    field "kind" { type = ident required = true }
    field "widget" { type = quoted }
    field "children" { type = list[ref(node)] }
    field "props" { type = map[ident, loose] }
  }
}
"#;

/// Shell page descriptions.
pub const SHELL_PAGES_V1: &'static str = r#"profile "shell.pages.v1" {
  version = 1
  rule "page" {
    scope = top
    match = keyword
    keyword = page
    label = required
    field "title" { type = quoted required = true }
    field "board" { type = quoted }
    nested "section" {
      match = keyword
      keyword = section
      label = required
      extras = true
    }
  }
}
"#;

/// Tool configuration documents.
pub const TOOLS_CONFIG_V1: &'static str = r#"profile "tools.config.v1" {
  version = 1
  rule "tool" {
    scope = top
    match = keyword
    keyword = tool
    label = required
    field "command" { type = quoted required = true }
    field "args" { type = list }
    extras = true
  }
}
"#;

/// Shared module and compiler configuration documents.
pub const CONFIGURATION_V1: &'static str = r#"profile "configuration.v1" {
  version = 1
  rule "config" {
    scope = top
    match = keyword
    keyword = config
    label = optional
    cardinality = zero_or_one
    extras = true
  }
  rule "moduleConfig" {
    scope = top
    match = keyword
    keyword = moduleConfig
    label = required
    field "module" { type = quoted }
    extras = true
  }
  rule "option" {
    scope = top
    match = keyword
    keyword = option
    label = required
    field "type" { type = ident required = true }
    field "default" { type = loose }
    field "description" { type = quoted }
  }
}
"#;

/// Shared configuration documents with typed options.
pub const CONFIGURATION_V2: &'static str = r#"profile "configuration.v2" {
  version = 2
  rule "config" {
    scope = top
    match = keyword
    keyword = config
    label = optional
    cardinality = zero_or_one
    extras = true
  }
  rule "moduleConfig" {
    scope = top
    match = keyword
    keyword = moduleConfig
    label = required
    field "module" { type = quoted }
    extras = true
  }
  rule "option" {
    scope = top
    match = keyword
    keyword = option
    label = required
    field "type" { type = enum_or_quoted values = [bool, u32, i64, quoted, ident] required = true }
    field "default" { type = loose }
    field "description" { type = quoted }
  }
}
"#;

/// The source of the embedded profile `name`.
pub open spec fn embedded_profile(name: Seq<char>) -> Option<&'static str> {
    if name == "schema.v1"@ {
        Some(SCHEMA_V1)
    } else if name == "schema.v2"@ {
        Some(SCHEMA_V2)
    } else if name == "project.v1"@ {
        Some(PROJECT_V1)
    } else if name == "project.v2"@ {
        Some(PROJECT_V2)
    } else if name == "workspace.v1"@ {
        Some(WORKSPACE_V1)
    } else if name == "runtime.v1"@ {
        Some(RUNTIME_V1)
    } else if name == "runtime.v2"@ {
        Some(RUNTIME_V2)
    } else if name == "board.v1"@ {
        Some(BOARD_V1)
    } else if name == "board.v2"@ {
        Some(BOARD_V2)
    } else if name == "board.v3"@ {
        Some(BOARD_V3)
    } else if name == "shell.pages.v1"@ {
        Some(SHELL_PAGES_V1)
    } else if name == "tools.config.v1"@ {
        Some(TOOLS_CONFIG_V1)
    } else if name == "configuration.v1"@ {
        Some(CONFIGURATION_V1)
    } else if name == "configuration.v2"@ {
        Some(CONFIGURATION_V2)
    } else {
        None
    }
}

/// The source of the embedded profile `name`.
pub fn embedded_source(name: &str) -> (r: Option<&'static str>)
    ensures
        r == embedded_profile(name@),
{
    if str_eq(name, "schema.v1") {
        Some(SCHEMA_V1)
    } else if str_eq(name, "schema.v2") {
        Some(SCHEMA_V2)
    } else if str_eq(name, "project.v1") {
        Some(PROJECT_V1)
    } else if str_eq(name, "project.v2") {
        Some(PROJECT_V2)
    } else if str_eq(name, "workspace.v1") {
        Some(WORKSPACE_V1)
    } else if str_eq(name, "runtime.v1") {
        Some(RUNTIME_V1)
    } else if str_eq(name, "runtime.v2") {
        Some(RUNTIME_V2)
    } else if str_eq(name, "board.v1") {
        Some(BOARD_V1)
    } else if str_eq(name, "board.v2") {
        Some(BOARD_V2)
    } else if str_eq(name, "board.v3") {
        Some(BOARD_V3)
    } else if str_eq(name, "shell.pages.v1") {
        Some(SHELL_PAGES_V1)
    } else if str_eq(name, "tools.config.v1") {
        Some(TOOLS_CONFIG_V1)
    } else if str_eq(name, "configuration.v1") {
        Some(CONFIGURATION_V1)
    } else if str_eq(name, "configuration.v2") {
        Some(CONFIGURATION_V2)
    } else {
        None
    }
}

/// The names of the embedded profiles, in order.
pub open spec fn embedded_names() -> Seq<&'static str> {
    seq![
        "schema.v1",
        "schema.v2",
        "project.v1",
        "project.v2",
        "workspace.v1",
        "runtime.v1",
        "runtime.v2",
        "board.v1",
        "board.v2",
        "board.v3",
        "shell.pages.v1",
        "tools.config.v1",
        "configuration.v1",
        "configuration.v2",
    ]
}

/// The names of the embedded profiles.
pub fn embedded_profile_names() -> (r: Vec<&'static str>)
    ensures
        r@ == embedded_names(),
{
    vec!["schema.v1", "schema.v2", "project.v1", "project.v2", "workspace.v1", "runtime.v1", "runtime.v2", "board.v1", "board.v2", "board.v3", "shell.pages.v1", "tools.config.v1", "configuration.v1", "configuration.v2"]
}

/// A name has an embedded profile exactly when it is one of the listed names.
pub proof fn law_embedded_names(name: Seq<char>)
    ensures
        embedded_profile(name) is Some <==> exists|i: int|
            0 <= i < embedded_names().len() && (#[trigger] embedded_names()[i])@ == name,
{
    let ns = embedded_names();
    if embedded_profile(name) is Some {
        if name == "schema.v1"@ {
            assert(ns[0]@ == name);
        } else if name == "schema.v2"@ {
            assert(ns[1]@ == name);
        } else if name == "project.v1"@ {
            assert(ns[2]@ == name);
        } else if name == "project.v2"@ {
            assert(ns[3]@ == name);
        } else if name == "workspace.v1"@ {
            assert(ns[4]@ == name);
        } else if name == "runtime.v1"@ {
            assert(ns[5]@ == name);
        } else if name == "runtime.v2"@ {
            assert(ns[6]@ == name);
        } else if name == "board.v1"@ {
            assert(ns[7]@ == name);
        } else if name == "board.v2"@ {
            assert(ns[8]@ == name);
        } else if name == "board.v3"@ {
            assert(ns[9]@ == name);
        } else if name == "shell.pages.v1"@ {
            assert(ns[10]@ == name);
        } else if name == "tools.config.v1"@ {
            assert(ns[11]@ == name);
        } else if name == "configuration.v1"@ {
            assert(ns[12]@ == name);
        } else {
            assert(ns[13]@ == name);
        }
    }
}

/// The embedded profile `name`, loaded: unknown names and sources with a block the parser
/// cannot locate are errors.
pub open spec fn load_profile_spec(name: Seq<char>) -> Result<crate::schema_view::SProfile, SError> {
    match embedded_profile(name) {
        None => Err(SError::UnknownProfile(name)),
        Some(src) => if document_unspannable_from(src.spec_bytes(), 0) {
            Err(SError::Parse("profile source has a block the parser cannot locate"@))
        } else {
            load_source_spec(src.spec_bytes())
        },
    }
}

/// Load an embedded schema profile by name (for example `project.v1`).
pub fn load_profile(name: &str) -> (r: Result<SchemaProfile, BsolError>)
    ensures
        profile_res(r) == load_profile_spec(name@),
        r matches Ok(p) ==> crate::compose::vkeys_distinct(crate::schema_view::view_profile(p).rules),
{
    proof {
        if load_profile_spec(name@) is Ok {
            let src = embedded_profile(name@)->Some_0;
            crate::loader::law_loaded_rule_ids_distinct(src.spec_bytes());
        }
    }
    match embedded_source(name) {
        None => Err(BsolError::UnknownProfile(owned(name))),
        Some(src) => {
            if crate::parser::has_unspannable_block_start(src) {
                Err(BsolError::Parse(owned("profile source has a block the parser cannot locate")))
            } else {
                load_profile_from_source(src)
            }
        },
    }
}

} // verus!
