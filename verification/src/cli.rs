//! The commands of the command-line front end, as data: what a parsed
//! command line asks for. (The `kind` fields carry what the command line
//! calls `--type`.)
use vstd::prelude::*;

verus! {

/// The command line: the requirements file or project, and the command.
#[derive(Debug)]
pub struct Cli {
    /// Path to the requirements file
    pub file: String,

    /// Project name to use from central registry
    pub project: Option<String>,

    pub command: Command,
}

/// Commands on the registry of projects.
#[derive(Debug)]
pub enum DbCommand {
    /// Register a project in the registry
    Register {
        /// Name of the project
        name: Option<String>,

        /// Path to the requirements file
        path: Option<String>,

        /// Description of the project
        description: Option<String>,

        /// Set this project as the default
        default: bool,

        /// Use interactive mode (prompts)
        interactive: bool,
    },

    /// Print the path to the database YAML file
    Path {
        /// The name of the database to lookup
        name: Option<String>,
    },
}

/// Commands on features.
#[derive(Debug)]
pub enum FeatureCommand {
    /// Add a new feature with a prefix for IDs
    Add {
        /// Name of the feature (e.g., "Authentication")
        name: Option<String>,

        /// Prefix for requirement IDs (e.g., "AUTH")
        prefix: Option<String>,

        /// Use interactive mode (prompts)
        interactive: bool,
    },

    /// List all features
    List,

    /// Show details for a specific feature
    Show {
        /// The name or prefix of the feature to show
        name: String,
    },

    /// Edit an existing feature
    Edit {
        /// The name or prefix of the feature to edit
        name: String,

        /// New name for the feature
        new_name: Option<String>,

        /// New prefix for the feature
        new_prefix: Option<String>,

        /// Use interactive mode (prompts)
        interactive: bool,
    },
}

/// Commands on the identifier configuration.
#[derive(Debug)]
pub enum ConfigCommand {
    /// Show current ID configuration
    Show,

    /// Set the ID format (single-level or two-level)
    Format {
        /// Format: "single" for PREFIX-NNN, "two" for FEATURE-TYPE-NNN
        format: String,
    },

    /// Set the numbering strategy
    Numbering {
        /// Strategy: "global", "per-prefix", or "per-feature-type"
        strategy: String,
    },

    /// Set the number of digits in IDs
    Digits {
        /// Number of digits (1-6)
        digits: u8,
    },

    /// Migrate existing SPEC-XXX IDs to new format
    Migrate {
        /// Skip confirmation prompt
        yes: bool,
    },
}

/// Commands on requirement types.
#[derive(Debug)]
pub enum TypeCommand {
    /// List all requirement types
    List,

    /// Add a new requirement type
    Add {
        /// Name of the type (e.g., "Business")
        name: String,

        /// Prefix for the type (e.g., "BR")
        prefix: String,

        /// Description of the type
        description: Option<String>,
    },

    /// Remove a requirement type
    Remove {
        /// Name or prefix of the type to remove
        name: String,

        /// Skip confirmation prompt
        yes: bool,
    },
}

/// Commands for managing relationship type definitions
#[derive(Debug)]
pub enum RelDefCommand {
    /// List all relationship definitions
    List,

    /// Show details for a specific relationship definition
    Show {
        /// Name of the relationship definition
        name: String,
    },

    /// Add a new relationship definition
    Add {
        /// Unique name for the relationship (lowercase, no spaces)
        name: String,

        /// Human-readable display name
        display_name: Option<String>,

        /// Description of what this relationship means
        description: Option<String>,

        /// Name of the inverse relationship (e.g., "child" for "parent")
        inverse: Option<String>,

        /// Whether this relationship is symmetric (A->B implies B->A)
        symmetric: bool,

        /// Cardinality: 1:1, 1:n, n:1, n:n (default: n:n)
        cardinality: String,

        /// Allowed source requirement types (comma-separated, empty = all)
        source_types: Option<String>,

        /// Allowed target requirement types (comma-separated, empty = all)
        target_types: Option<String>,

        /// Color for visualization (hex format, e.g., #ff6b6b)
        color: Option<String>,
    },

    /// Edit an existing relationship definition
    Edit {
        /// Name of the relationship definition to edit
        name: String,

        /// New display name
        display_name: Option<String>,

        /// New description
        description: Option<String>,

        /// New allowed source types (comma-separated)
        source_types: Option<String>,

        /// New allowed target types (comma-separated)
        target_types: Option<String>,

        /// New color
        color: Option<String>,
    },

    /// Remove a relationship definition (only custom ones)
    Remove {
        /// Name of the relationship definition to remove
        name: String,

        /// Skip confirmation prompt
        yes: bool,
    },
}

/// Commands on relationships between requirements.
#[derive(Debug)]
pub enum RelationshipCommand {
    /// Add a relationship between requirements
    Add {
        /// Source requirement ID (UUID or SPEC-ID)
        from: String,

        /// Target requirement ID (UUID or SPEC-ID)
        to: String,

        /// Relationship type (parent, child, duplicate, verifies, verified-by, references, or custom)
        kind: String,

        /// Create bidirectional relationship (adds inverse relationship automatically)
        bidirectional: bool,
    },

    /// Remove a relationship between requirements
    Remove {
        /// Source requirement ID (UUID or SPEC-ID)
        from: String,

        /// Target requirement ID (UUID or SPEC-ID)
        to: String,

        /// Relationship type
        kind: String,

        /// Remove bidirectional relationship (removes inverse relationship too)
        bidirectional: bool,
    },

    /// List all relationships for a requirement
    List {
        /// Requirement ID (UUID or SPEC-ID)
        id: String,
    },
}

/// Commands on comments.
#[derive(Debug)]
pub enum CommentCommand {
    /// Add a comment to a requirement
    Add {
        /// Requirement ID (UUID or SPEC-ID)
        id: String,

        /// Comment content
        content: Option<String>,

        /// Author of the comment (defaults to system user)
        author: Option<String>,

        /// Parent comment ID (for replies)
        parent: Option<String>,

        /// Use interactive mode (prompts)
        interactive: bool,
    },

    /// List all comments for a requirement
    List {
        /// Requirement ID (UUID or SPEC-ID)
        id: String,
    },

    /// Edit a comment
    Edit {
        /// Requirement ID (UUID or SPEC-ID)
        req_id: String,

        /// Comment ID to edit
        comment_id: String,

        /// New content
        content: Option<String>,

        /// Use interactive mode (prompts)
        interactive: bool,
    },

    /// Delete a comment
    Delete {
        /// Requirement ID (UUID or SPEC-ID)
        req_id: String,

        /// Comment ID to delete
        comment_id: String,
    },
}

/// The commands of the command-line tool.
#[derive(Debug)]
pub enum Command {
    /// Add a new requirement
    Add {
        /// Title of the requirement
        title: Option<String>,

        /// Description of the requirement
        description: Option<String>,

        /// Status of the requirement (draft, approved, completed, rejected)
        status: Option<String>,

        /// Priority of the requirement (high, medium, low)
        priority: Option<String>,

        /// Type of the requirement (functional, non-functional, system, user)
        kind: Option<String>,

        /// Owner of the requirement
        owner: Option<String>,

        /// Feature the requirement belongs to (defaults to REQ_FEATURE env var or "Uncategorized")
        feature: Option<String>,

        /// Tags for the requirement (comma-separated)
        tags: Option<String>,

        /// Custom ID prefix override (uppercase letters only, e.g., SEC, PERF)
        prefix: Option<String>,

        /// Use interactive mode (prompts)
        interactive: bool,
    },

    /// List all requirements
    List {
        /// Filter by status
        status: Option<String>,

        /// Filter by priority
        priority: Option<String>,

        /// Filter by type
        kind: Option<String>,

        /// Filter by feature
        feature: Option<String>,

        /// Filter by tags (comma separated)
        tags: Option<String>,
    },

    /// Show details for a specific requirement
    Show {
        /// The ID of the requirement to show
        id: String,
    },

    /// Edit an existing requirement
    Edit {
        /// The ID of the requirement to edit
        id: String,
    },

    /// Delete a requirement
    Del {
        /// The ID (UUID or SPEC-ID) of the requirement to delete
        id: String,

        /// Skip confirmation prompt
        yes: bool,
    },

    /// Feature management commands
    Feature(FeatureCommand),

    /// Database management commands
    Db(DbCommand),

    /// Relationship management commands
    Rel(RelationshipCommand),

    /// Relationship definition management commands
    RelDef(RelDefCommand),

    /// Manage comments on requirements
    Comment(CommentCommand),

    /// ID configuration commands
    Config(ConfigCommand),

    /// Requirement type management commands
    Type(TypeCommand),

    /// Export requirements to different formats
    Export {
        /// Output format (mapping, json)
        format: String,

        /// Output file path
        output: Option<String>,
    },

    /// Open the user guide in the default browser
    UserGuide {
        /// Open in dark mode
        dark: bool,
    },
}

} // verus!
