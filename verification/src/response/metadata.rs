//! Newsgroup metadata types for NNTP responses.

use vstd::prelude::*;
use crate::text::{chars_of, chars_of_string, lower_seq, lowercase, parse_u64_all, parse_u64_spec, strings_of};

verus! {

/// Newsgroup information
#[derive(Debug, Clone, PartialEq)]
pub struct NewsGroup {
    /// Group name
    pub name: String,
    /// Last article number
    pub last: u64,
    /// First article number
    pub first: u64,
    /// Posting status (y/n/m)
    pub posting_status: char,
}

/// Mathematical value of a [`NewsGroup`].
pub struct NewsGroupV {
    pub name: Seq<char>,
    pub last: u64,
    pub first: u64,
    pub posting_status: char,
}

impl View for NewsGroup {
    type V = NewsGroupV;

    open spec fn view(&self) -> NewsGroupV {
        NewsGroupV {
            name: self.name@,
            last: self.last,
            first: self.first,
            posting_status: self.posting_status,
        }
    }
}

/// Overview entry for OVER command response
#[derive(Debug, Clone, PartialEq)]
pub struct OverviewEntry {
    /// Raw tab-separated fields from the OVER response
    pub fields: Vec<String>,
}

impl View for OverviewEntry {
    type V = Seq<Seq<char>>;

    open spec fn view(&self) -> Seq<Seq<char>> {
        strings_of(self.fields@)
    }
}

/// Header entry for HDR command response
#[derive(Debug, Clone, PartialEq)]
pub struct HeaderEntry {
    /// Article number or message ID
    pub article: String,
    /// Header field value
    pub value: String,
}

/// Mathematical value of a [`HeaderEntry`].
pub struct HeaderEntryV {
    pub article: Seq<char>,
    pub value: Seq<char>,
}

impl View for HeaderEntry {
    type V = HeaderEntryV;

    open spec fn view(&self) -> HeaderEntryV {
        HeaderEntryV { article: self.article@, value: self.value@ }
    }
}

/// Field `i` of an overview entry, if present.
pub open spec fn field_at(f: Seq<Seq<char>>, i: int) -> Option<Seq<char>> {
    if 0 <= i < f.len() {
        Some(f[i])
    } else {
        None
    }
}

/// Field `i`, read as a number.
pub open spec fn number_at(f: Seq<Seq<char>>, i: int) -> Option<u64> {
    match field_at(f, i) {
        Some(x) => parse_u64_spec(x),
        None => None,
    }
}

/// Index of a named field in the default RFC 3977 overview format.
pub open spec fn default_field_index(name: Seq<char>) -> Option<int> {
    let n = lower_seq(name);
    if n == "subject"@ {
        Some(1)
    } else if n == "from"@ {
        Some(2)
    } else if n == "date"@ {
        Some(3)
    } else if n == "message-id"@ {
        Some(4)
    } else if n == "references"@ {
        Some(5)
    } else if n == "byte_count"@ || n == "bytes"@ {
        Some(6)
    } else if n == "line_count"@ || n == "lines"@ {
        Some(7)
    } else {
        None
    }
}

/// View of an optional string slice.
pub open spec fn opt_str(o: Option<&str>) -> Option<Seq<char>> {
    match o {
        Some(s) => Some(s@),
        None => None,
    }
}

/// Equality of a character vector with a string literal.
pub fn chars_eq(v: &Vec<char>, lit: &str) -> (r: bool)
    ensures
        r == (v@ == lit@),
{
    let w = chars_of(lit);
    if v.len() != w.len() {
        return false;
    }
    let mut i: usize = 0;
    while i < v.len()
        invariant
            v.len() == w.len(),
            w@ == lit@,
            i <= v.len(),
            forall|j: int| 0 <= j < i ==> v@[j] == w@[j],
        decreases v.len() - i,
    {
        if v[i] != w[i] {
            return false;
        }
        i = i + 1;
    }
    assert(v@ =~= w@);
    true
}

impl OverviewEntry {
    /// Get article number (always the first field)
    pub fn number(&self) -> (r: Option<u64>)
        ensures
            r == number_at(self@, 0),
    {
        self.number_field(0)
    }

    /// Field `i`, read as a number.
    fn number_field(&self, i: usize) -> (r: Option<u64>)
        ensures
            r == number_at(self@, i as int),
    {
        if i < self.fields.len() {
            let v = chars_of_string(&self.fields[i]);
            parse_u64_all(&v)
        } else {
            None
        }
    }

    /// Get field at specific index
    pub fn get_field(&self, index: usize) -> (r: Option<&str>)
        ensures
            opt_str(r) == field_at(self@, index as int),
    {
        if index < self.fields.len() {
            Some(self.fields[index].as_str())
        } else {
            None
        }
    }

    /// Get field by name (requires field format knowledge).
    ///
    /// This is a helper that assumes the default RFC 3977 format. Names are
    /// compared without regard to ASCII case; no other character lowercases
    /// to one of the names' characters on its own, so this is the same as
    /// comparing lowercased names.
    pub fn get_default_field(&self, field_name: &str) -> (r: Option<&str>)
        ensures
            opt_str(r) == match default_field_index(field_name@) {
                Some(i) => field_at(self@, i),
                None => None,
            },
    {
        let n = lowercase(&chars_of(field_name));
        let index: usize = if chars_eq(&n, "subject") {
            1
        } else if chars_eq(&n, "from") {
            2
        } else if chars_eq(&n, "date") {
            3
        } else if chars_eq(&n, "message-id") {
            4
        } else if chars_eq(&n, "references") {
            5
        } else if chars_eq(&n, "byte_count") || chars_eq(&n, "bytes") {
            6
        } else if chars_eq(&n, "line_count") || chars_eq(&n, "lines") {
            7
        } else {
            return None;
        };
        self.get_field(index)
    }

    /// Get subject field (index 1 in default format)
    pub fn subject(&self) -> (r: Option<&str>)
        ensures
            opt_str(r) == field_at(self@, 1),
    {
        self.get_field(1)
    }

    /// Get from field (index 2 in default format)
    pub fn from(&self) -> (r: Option<&str>)
        ensures
            opt_str(r) == field_at(self@, 2),
    {
        self.get_field(2)
    }

    /// Get date field (index 3 in default format)
    pub fn date(&self) -> (r: Option<&str>)
        ensures
            opt_str(r) == field_at(self@, 3),
    {
        self.get_field(3)
    }

    /// Get message-id field (index 4 in default format)
    pub fn message_id(&self) -> (r: Option<&str>)
        ensures
            opt_str(r) == field_at(self@, 4),
    {
        self.get_field(4)
    }

    /// Get references field (index 5 in default format)
    pub fn references(&self) -> (r: Option<&str>)
        ensures
            opt_str(r) == field_at(self@, 5),
    {
        self.get_field(5)
    }

    /// Get byte count field (index 6 in default format)
    pub fn byte_count(&self) -> (r: Option<u64>)
        ensures
            r == number_at(self@, 6),
    {
        self.number_field(6)
    }

    /// Get line count field (index 7 in default format)
    pub fn line_count(&self) -> (r: Option<u64>)
        ensures
            r == number_at(self@, 7),
    {
        self.number_field(7)
    }
}

} // verus!
