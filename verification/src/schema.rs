//! The output schema of each command, for callers that read the JSON output.
use vstd::prelude::*;
use crate::text::{push_str, same_text};

verus! {

broadcast use vstd::string::group_string_axioms;

/// One field of a command's JSON output.
pub struct FieldDef {
    pub name: &'static str,
    /// The JSON type of the field (`string`, `number`, `integer`, `boolean` or `array`).
    pub field_type: &'static str,
    pub nullable: bool,
    pub description: &'static str,
}

/// The fields a command prints, with a line on what the command does.
pub struct CommandSchema {
    pub command: &'static str,
    pub description: &'static str,
    pub output_fields: Vec<FieldDef>,
}

/// A field as text: name, type, whether it may be null, description.
pub struct FieldSpec {
    pub name: Seq<char>,
    pub field_type: Seq<char>,
    pub nullable: bool,
    pub description: Seq<char>,
}

/// A schema as text: command, description, fields.
pub struct SchemaSpec {
    pub command: Seq<char>,
    pub description: Seq<char>,
    pub fields: Seq<FieldSpec>,
}

impl View for FieldDef {
    type V = FieldSpec;

    open spec fn view(&self) -> FieldSpec {
        FieldSpec {
            name: self.name@,
            field_type: self.field_type@,
            nullable: self.nullable,
            description: self.description@,
        }
    }
}

impl View for CommandSchema {
    type V = SchemaSpec;

    open spec fn view(&self) -> SchemaSpec {
        SchemaSpec {
            command: self.command@,
            description: self.description@,
            fields: self.output_fields@.map_values(|f: FieldDef| f@),
        }
    }
}

/// A field given by its four parts.
pub open spec fn field(name: &str, field_type: &str, nullable: bool, description: &str) -> FieldSpec {
    FieldSpec { name: name@, field_type: field_type@, nullable, description: description@ }
}

/// The schema of the `list` command.
pub open spec fn list_schema() -> SchemaSpec {
    SchemaSpec {
        command: "list"@,
        description: "List all recordings and their processing status"@,
        fields: seq![
            field("uuid", "string", false, "Unique recording identifier"),
            field("date", "string", false, "Recording date (YYYY-MM-DD HH:MM)"),
            field("duration", "string", false, "Human-readable duration (e.g. 2m05s)"),
            field("duration_secs", "number", false, "Duration in seconds"),
            field("title", "string", false, "Recording title or location"),
            field("status", "string", false, "Processing status: pending, done, needs-whisply"),
            field("method", "string", true, "Transcription method used: tsrp or whisply"),
            field("words", "integer", true, "Word count of transcript"),
            field("file", "string", true, "Output filename"),
            field("folder", "string", true, "Voice Memos folder the recording is in"),
            field("evicted", "boolean", false, "Whether the audio lives only in iCloud"),
        ],
    }
}

/// The schema of the `show` command.
pub open spec fn show_schema() -> SchemaSpec {
    SchemaSpec {
        command: "show"@,
        description: "Show recent transcripts with full text"@,
        fields: seq![
            field("uuid", "string", false, "Unique recording identifier"),
            field("date", "string", false, "Recording date (YYYY-MM-DD HH:MM)"),
            field("duration", "string", false, "Human-readable duration"),
            field("duration_secs", "number", false, "Duration in seconds"),
            field("title", "string", false, "Recording title"),
            field("words", "integer", false, "Word count"),
            field("file", "string", false, "Output filename"),
            field("transcript", "string", false, "Full transcript text"),
            field("folder", "string", true, "Voice Memos folder the recording is in"),
        ],
    }
}

/// The schema of the `extract` command.
pub open spec fn extract_schema() -> SchemaSpec {
    SchemaSpec {
        command: "extract"@,
        description: "Extract new transcripts from Voice Memos"@,
        fields: seq![
            field("extracted", "integer", false, "Number of recordings successfully transcribed"),
            field("skipped", "integer", false, "Number of recordings skipped"),
            field("evicted", "integer", false, "Number of recordings skipped because they live only in iCloud"),
            field("needs_whisply", "integer", false, "Number needing --all for whisply fallback"),
            field("files", "array", false, "List of extracted files with uuid, title, method, words, file, folder"),
        ],
    }
}

/// The schema of the command named `command`, if there is one.
pub open spec fn schema_spec(command: Seq<char>) -> Option<SchemaSpec> {
    if command == "list"@ {
        Some(list_schema())
    } else if command == "show"@ {
        Some(show_schema())
    } else if command == "extract"@ {
        Some(extract_schema())
    } else {
        None
    }
}

/// The commands that have a schema, in the order they are listed.
pub open spec fn command_names() -> Seq<Seq<char>> {
    seq!["list"@, "show"@, "extract"@]
}

/// The output schema of `command`, or `None` for a command without one.
pub fn schema_for(command: &str) -> (r: Option<CommandSchema>)
    ensures
        match r {
            Some(s) => schema_spec(command@) == Some(s@),
            None => schema_spec(command@) is None,
        },
{
    if same_text(command, "list") {
        let s = CommandSchema {
            command: "list",
            description: "List all recordings and their processing status",
            output_fields: vec![
                FieldDef { name: "uuid", field_type: "string", nullable: false, description: "Unique recording identifier" },
                FieldDef { name: "date", field_type: "string", nullable: false, description: "Recording date (YYYY-MM-DD HH:MM)" },
                FieldDef { name: "duration", field_type: "string", nullable: false, description: "Human-readable duration (e.g. 2m05s)" },
                FieldDef { name: "duration_secs", field_type: "number", nullable: false, description: "Duration in seconds" },
                FieldDef { name: "title", field_type: "string", nullable: false, description: "Recording title or location" },
                FieldDef { name: "status", field_type: "string", nullable: false, description: "Processing status: pending, done, needs-whisply" },
                FieldDef { name: "method", field_type: "string", nullable: true, description: "Transcription method used: tsrp or whisply" },
                FieldDef { name: "words", field_type: "integer", nullable: true, description: "Word count of transcript" },
                FieldDef { name: "file", field_type: "string", nullable: true, description: "Output filename" },
                FieldDef { name: "folder", field_type: "string", nullable: true, description: "Voice Memos folder the recording is in" },
                FieldDef { name: "evicted", field_type: "boolean", nullable: false, description: "Whether the audio lives only in iCloud" },
            ],
        };
        assert(s@.fields =~= list_schema().fields);
        Some(s)
    } else if same_text(command, "show") {
        let s = CommandSchema {
            command: "show",
            description: "Show recent transcripts with full text",
            output_fields: vec![
                FieldDef { name: "uuid", field_type: "string", nullable: false, description: "Unique recording identifier" },
                FieldDef { name: "date", field_type: "string", nullable: false, description: "Recording date (YYYY-MM-DD HH:MM)" },
                FieldDef { name: "duration", field_type: "string", nullable: false, description: "Human-readable duration" },
                FieldDef { name: "duration_secs", field_type: "number", nullable: false, description: "Duration in seconds" },
                FieldDef { name: "title", field_type: "string", nullable: false, description: "Recording title" },
                FieldDef { name: "words", field_type: "integer", nullable: false, description: "Word count" },
                FieldDef { name: "file", field_type: "string", nullable: false, description: "Output filename" },
                FieldDef { name: "transcript", field_type: "string", nullable: false, description: "Full transcript text" },
                FieldDef { name: "folder", field_type: "string", nullable: true, description: "Voice Memos folder the recording is in" },
            ],
        };
        assert(s@.fields =~= show_schema().fields);
        Some(s)
    } else if same_text(command, "extract") {
        let s = CommandSchema {
            command: "extract",
            description: "Extract new transcripts from Voice Memos",
            output_fields: vec![
                FieldDef { name: "extracted", field_type: "integer", nullable: false, description: "Number of recordings successfully transcribed" },
                FieldDef { name: "skipped", field_type: "integer", nullable: false, description: "Number of recordings skipped" },
                FieldDef { name: "evicted", field_type: "integer", nullable: false, description: "Number of recordings skipped because they live only in iCloud" },
                FieldDef { name: "needs_whisply", field_type: "integer", nullable: false, description: "Number needing --all for whisply fallback" },
                FieldDef { name: "files", field_type: "array", nullable: false, description: "List of extracted files with uuid, title, method, words, file, folder" },
            ],
        };
        assert(s@.fields =~= extract_schema().fields);
        Some(s)
    } else {
        None
    }
}

/// The names of the commands that have a schema.
pub fn available_commands() -> (r: Vec<&'static str>)
    ensures
        r@.map_values(|c: &'static str| c@) == command_names(),
{
    let r = vec!["list", "show", "extract"];
    assert(r@.map_values(|c: &'static str| c@) =~= command_names());
    r
}

/// A command has a schema exactly when it is one of the available commands, and
/// that schema names the command it was asked for.
pub proof fn lemma_schema_iff_available(command: Seq<char>)
    ensures
        schema_spec(command) is Some <==> command_names().contains(command),
        schema_spec(command) matches Some(s) ==> s.command == command,
{
    if command_names().contains(command) {
        let i = choose|i: int| 0 <= i < command_names().len() && command_names()[i] == command;
        assert(i == 0 || i == 1 || i == 2);
    }
    if schema_spec(command) is Some {
        if command == "list"@ {
            assert(command_names()[0] == command);
        } else if command == "show"@ {
            assert(command_names()[1] == command);
        } else {
            assert(command_names()[2] == command);
        }
    }
}

/// `items` joined by `sep`.
pub open spec fn joined(items: Seq<Seq<char>>, sep: Seq<char>) -> Seq<char>
    decreases items.len(),
{
    if items.len() == 0 {
        seq![]
    } else if items.len() == 1 {
        items[0]
    } else {
        joined(items.drop_last(), sep) + sep + items.last()
    }
}

/// What the `schema` command prints: one schema, or all of them.
pub enum SchemaReply {
    One(CommandSchema),
    All(Vec<CommandSchema>),
}

/// The error for a command without a schema, naming those that have one.
pub open spec fn unknown_command_message(command: Seq<char>) -> Seq<char> {
    "unknown command: "@ + command + ". Available: "@ + joined(command_names(), ", "@)
}

/// The reply to `schema`: the schema of the command named, an error naming the
/// available commands when it has none, or every schema when no command is named.
pub fn schema_reply(command: Option<&str>) -> (r: Result<SchemaReply, String>)
    ensures
        match command {
            Some(c) => match schema_spec(c@) {
                Some(s) => r matches Ok(SchemaReply::One(x)) && x@ == s,
                None => r matches Err(e) && e@ == unknown_command_message(c@),
            },
            None => r matches Ok(SchemaReply::All(v)) && v@.len() == command_names().len()
                && forall|k: int| 0 <= k < v@.len() ==> schema_spec(command_names()[k]) == Some(#[trigger] v@[k]@),
        },
{
    let names = available_commands();
    proof {
        assert(names@.map_values(|c: &'static str| c@) == command_names());
        assert(names@.len() == 3);
    }
    match command {
        Some(c) => match schema_for(c) {
            Some(s) => Ok(SchemaReply::One(s)),
            None => {
                let mut msg = "unknown command: ".to_string();
                push_str(&mut msg, c);
                push_str(&mut msg, ". Available: ");
                for i in 0..names.len()
                    invariant
                        names@.map_values(|c: &'static str| c@) == command_names(),
                        msg@ == "unknown command: "@ + c@ + ". Available: "@
                            + joined(command_names().take(i as int), ", "@),
                {
                    let ghost before = msg@;
                    assert(command_names()[i as int] == names@[i as int]@);
                    assert(command_names().take(i + 1).drop_last() == command_names().take(i as int));
                    if i > 0 {
                        push_str(&mut msg, ", ");
                    }
                    push_str(&mut msg, names[i]);
                    proof {
                        if i == 0 {
                            assert(command_names().take(1).len() == 1);
                            assert(joined(command_names().take(0), ", "@) =~= Seq::<char>::empty());
                        }
                    }
                    assert(msg@ =~= "unknown command: "@ + c@ + ". Available: "@
                        + joined(command_names().take(i + 1), ", "@));
                }
                assert(command_names().take(3) == command_names());
                Err(msg)
            },
        },
        None => {
            let mut all: Vec<CommandSchema> = Vec::new();
            for i in 0..names.len()
                invariant
                    names@.map_values(|c: &'static str| c@) == command_names(),
                    all@.len() == i,
                    forall|k: int| 0 <= k < i ==> schema_spec(command_names()[k]) == Some(#[trigger] all@[k]@),
            {
                assert(command_names()[i as int] == names@[i as int]@);
                proof {
                    lemma_schema_iff_available(names@[i as int]@);
                    assert(command_names().contains(names@[i as int]@));
                }
                match schema_for(names[i]) {
                    Some(s) => all.push(s),
                    None => {},
                }
            }
            Ok(SchemaReply::All(all))
        },
    }
}

} // verus!
