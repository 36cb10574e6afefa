use vstd::prelude::*;

verus! {

/// The lower-case hex digit of `d`, for `d` below 16.
pub open spec fn hex_digit(d: int) -> char {
    seq!['0', '1', '2', '3', '4', '5', '6', '7', '8', '9', 'a', 'b', 'c', 'd', 'e', 'f'][d]
}

/// How one character is written inside a JSON string literal: a quote and a
/// backslash get a backslash, the usual control characters their short
/// escapes, the other characters below 0x20 a `\u00xx` escape, and every
/// other character stays as it is.
pub open spec fn json_escape_char(c: char) -> Seq<char> {
    if c == '"' {
        seq!['\\', '"']
    } else if c == '\\' {
        seq!['\\', '\\']
    } else if c == '\x08' {
        seq!['\\', 'b']
    } else if c == '\t' {
        seq!['\\', 't']
    } else if c == '\n' {
        seq!['\\', 'n']
    } else if c == '\x0C' {
        seq!['\\', 'f']
    } else if c == '\r' {
        seq!['\\', 'r']
    } else if (c as int) < 0x20 {
        seq!['\\', 'u', '0', '0', hex_digit(c as int / 16), hex_digit(c as int % 16)]
    } else {
        seq![c]
    }
}

/// The characters of `s`, each escaped for a JSON string literal.
pub open spec fn json_escaped(s: Seq<char>) -> Seq<char>
    decreases s.len(),
{
    if s.len() == 0 {
        Seq::empty()
    } else {
        json_escaped(s.drop_last()) + json_escape_char(s.last())
    }
}

/// The JSON string literal for `s`: its escaped characters between quotes.
pub open spec fn json_quoted(s: Seq<char>) -> Seq<char> {
    seq!['"'] + json_escaped(s) + seq!['"']
}

/// Relies on serde_json's `Display` for `Value::String`, which writes the
/// string as a compact JSON string literal with the escapes above.
#[verifier::external_body]
fn json_quote(s: &String) -> (r: String)
    ensures
        r@ == json_quoted(s@),
{
    serde_json::Value::String(s.clone()).to_string()
}

/// The items of a JSON array of strings, without the brackets.
pub open spec fn json_items(items: Seq<Seq<char>>) -> Seq<char>
    decreases items.len(),
{
    if items.len() == 0 {
        Seq::empty()
    } else if items.len() == 1 {
        json_quoted(items[0])
    } else {
        json_items(items.drop_last()) + ","@ + json_quoted(items.last())
    }
}

/// The names held by a list of strings.
pub open spec fn names_of(v: Seq<String>) -> Seq<Seq<char>> {
    v.map_values(|s: String| s@)
}

/// A command to run on a worker: where to check the code out, what to run,
/// and the result inboxes that the worker answers into.
pub struct CmdBody {
    pub repo: String,
    pub commit: String,
    pub command: String,
    pub control_queues: Vec<String>,
}

/// The JSON object that carries a command body to the broker: the three
/// fields in order, then the inboxes, left out when there are none.
pub open spec fn cmd_json(b: CmdBody) -> Seq<char> {
    "{\"repo\":"@ + json_quoted(b.repo@) + ",\"commit\":"@ + json_quoted(b.commit@)
        + ",\"command\":"@ + json_quoted(b.command@) + (if b.control_queues@.len() == 0 {
        Seq::empty()
    } else {
        ",\"control_queues\":["@ + json_items(names_of(b.control_queues@)) + "]"@
    }) + "}"@
}

impl CmdBody {
    /// A command body that names `control_queue`, if given, as its one inbox.
    pub fn new(repo: String, commit: String, command: String, control_queue: Option<&str>) -> (r:
        CmdBody)
        ensures
            r.repo == repo,
            r.commit == commit,
            r.command == command,
            control_queue.is_none() ==> r.control_queues@.len() == 0,
            control_queue.is_some() ==> r.control_queues@.len() == 1
                && r.control_queues@[0]@ == control_queue.unwrap()@,
    {
        let mut control_queues: Vec<String> = Vec::new();
        match control_queue {
            Some(q) => {
                control_queues.push(String::from_str(q));
            },
            None => {},
        }
        CmdBody { repo, commit, command, control_queues }
    }

    /// The body as the JSON text that workers read.
    pub fn to_json(&self) -> (r: String)
        ensures
            r@ == cmd_json(*self),
    {
        let mut out = String::new();
        out.append("{\"repo\":");
        let q = json_quote(&self.repo);
        out.append(q.as_str());
        out.append(",\"commit\":");
        let q = json_quote(&self.commit);
        out.append(q.as_str());
        out.append(",\"command\":");
        let q = json_quote(&self.command);
        out.append(q.as_str());
        let ghost head = out@;
        if self.control_queues.len() > 0 {
            out.append(",\"control_queues\":[");
            let ghost open = out@;
            let ghost names = names_of(self.control_queues@);
            let mut i: usize = 0;
            while i < self.control_queues.len()
                invariant
                    i <= self.control_queues@.len(),
                    names == names_of(self.control_queues@),
                    out@ == open + json_items(names.take(i as int)),
                decreases self.control_queues@.len() - i,
            {
                if i > 0 {
                    out.append(",");
                }
                let q = json_quote(&self.control_queues[i]);
                out.append(q.as_str());
                proof {
                    let t = names.take(i + 1);
                    assert(t.drop_last() =~= names.take(i as int));
                    assert(t.last() == self.control_queues@[i as int]@);
                    if i == 0 {
                        assert(names.take(0) =~= Seq::<Seq<char>>::empty());
                    }
                }
                i = i + 1;
            }
            out.append("]");
            assert(names.take(self.control_queues@.len() as int) =~= names);
        }
        out.append("}");
        out
    }
}

/// What a worker reports of one command: its exit status, the worker's name,
/// the command body echoed back, and the command's output where the report
/// holds one as text.
pub struct Result {
    pub status: i32,
    pub worker: String,
    pub body: CmdBody,
    pub output: Option<String>,
}

/// The output that a result shows: its text, or nothing where it has none.
pub open spec fn output_of(r: Result) -> Seq<char> {
    match r.output {
        Some(o) => o@,
        None => Seq::empty(),
    }
}

impl Result {
    /// The output to show for this result, empty where there is none.
    pub fn output_text(&self) -> (r: String)
        ensures
            r@ == output_of(*self),
    {
        match &self.output {
            Some(o) => o.clone(),
            None => String::new(),
        }
    }
}

/// A result as it comes out of a run's inbox: the id of the job it answers,
/// the job's state, and the report.
pub struct ResultBody {
    pub job_id: String,
    pub state: String,
    pub result: Result,
}

} // verus!
