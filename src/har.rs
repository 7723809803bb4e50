//! Entries of an HTTP archive, and their rendering as Markdown tables.
use vstd::prelude::*;

use crate::text::push_text;

verus! {

pub struct NameVersionEntry {
    pub name: String,
    pub version: String,
}

pub struct NameValueEntry {
    pub name: String,
    pub value: String,
}

pub struct RequestEntry {
    pub body_size: i32,
    pub method: String,
    pub url: String,
    pub http_version: String,
    pub headers: Vec<NameValueEntry>,
    pub cookies: Vec<NameValueEntry>,
    pub query_string: Vec<NameValueEntry>,
    pub headers_size: i32,
}

pub struct Content {
    pub mime_type: String,
    pub size: i64,
    pub text: Option<String>,
}

/// The rows of a name/value table, each on a line of its own: ``|`name`|`value`|``.
pub open spec fn table_rows(entries: Seq<NameValueEntry>) -> Seq<char>
    decreases entries.len(),
{
    if entries.len() == 0 {
        Seq::empty()
    } else {
        table_rows(entries.drop_last()) + "\n|`"@ + entries.last().name@ + "`|`"@
            + entries.last().value@ + "`|"@
    }
}

/// A Markdown name/value table, with a blank line before and after it.
pub open spec fn markdown_table(entries: Seq<NameValueEntry>) -> Seq<char> {
    "\n|Name|Value|\n|:----|:---|"@ + table_rows(entries) + "\n"@
}

pub fn write_table(entries: Vec<NameValueEntry>) -> (r: String)
    ensures
        r@ == markdown_table(entries@),
{
    let mut text = "\n|Name|Value|\n|:----|:---|".to_owned();
    let mut i: usize = 0;
    while i < entries.len()
        invariant
            i <= entries@.len(),
            text@ == "\n|Name|Value|\n|:----|:---|"@ + table_rows(entries@.take(i as int)),
        decreases entries@.len() - i,
    {
        let entry = &entries[i];
        proof {
            assert(entries@.take(i + 1).drop_last() =~= entries@.take(i as int));
            assert(entries@.take(i + 1).last() == *entry);
        }
        push_text(&mut text, "\n|`");
        push_text(&mut text, entry.name.as_str());
        push_text(&mut text, "`|`");
        push_text(&mut text, entry.value.as_str());
        push_text(&mut text, "`|");
        proof {
            assert(text@ =~= "\n|Name|Value|\n|:----|:---|"@ + table_rows(entries@.take(i + 1)));
        }
        i = i + 1;
    }
    push_text(&mut text, "\n");
    proof {
        assert(entries@.take(entries@.len() as int) =~= entries@);
        assert(text@ =~= markdown_table(entries@));
    }
    text
}

} // verus!
