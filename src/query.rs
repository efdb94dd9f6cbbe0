//! Board addresses and the query part of board links.

use vstd::prelude::*;

verus! {

/// Board in a URL path, with the thread number where the path names one.
pub struct PathInfo {
    pub board: String,
    pub message_num: Option<i64>,
}

/// Query parameters of board pages.
pub struct QueryOptions {
    pub page: Option<i64>,
    pub search_string: Option<String>,
}

pub open spec fn digit_char(d: int) -> char {
    if d == 0 {
        '0'
    } else if d == 1 {
        '1'
    } else if d == 2 {
        '2'
    } else if d == 3 {
        '3'
    } else if d == 4 {
        '4'
    } else if d == 5 {
        '5'
    } else if d == 6 {
        '6'
    } else if d == 7 {
        '7'
    } else if d == 8 {
        '8'
    } else {
        '9'
    }
}

/// Decimal digits of `n`, most significant first, without leading zeros.
pub open spec fn digits_of(n: nat) -> Seq<char>
    decreases n,
{
    if n < 10 {
        seq![digit_char(n as int)]
    } else {
        digits_of(n / 10).push(digit_char((n % 10) as int))
    }
}

/// Decimal text of an integer, with a leading `-` when it is negative.
pub open spec fn decimal_of(n: int) -> Seq<char> {
    if n < 0 {
        seq!['-'] + digits_of((-n) as nat)
    } else {
        digits_of(n as nat)
    }
}

/// `page=<n>&` when a page is set.
pub open spec fn page_text(page: Option<i64>) -> Seq<char> {
    match page {
        Some(p) => seq!['p', 'a', 'g', 'e', '='] + decimal_of(p as int) + seq!['&'],
        None => Seq::empty(),
    }
}

/// `search_string=<s>&` when a search is set.
pub open spec fn search_text(search: Option<String>) -> Seq<char> {
    match search {
        Some(s) => seq!['s', 'e', 'a', 'r', 'c', 'h', '_', 's', 't', 'r', 'i', 'n', 'g', '=']
            + s@ + seq!['&'],
        None => Seq::empty(),
    }
}

fn digit_text(d: u64) -> (r: &'static str)
    requires
        d < 10,
    ensures
        r@ == seq![digit_char(d as int)],
{
    proof {
        reveal_strlit("0");
        reveal_strlit("1");
        reveal_strlit("2");
        reveal_strlit("3");
        reveal_strlit("4");
        reveal_strlit("5");
        reveal_strlit("6");
        reveal_strlit("7");
        reveal_strlit("8");
        reveal_strlit("9");
    }
    if d == 0 {
        "0"
    } else if d == 1 {
        "1"
    } else if d == 2 {
        "2"
    } else if d == 3 {
        "3"
    } else if d == 4 {
        "4"
    } else if d == 5 {
        "5"
    } else if d == 6 {
        "6"
    } else if d == 7 {
        "7"
    } else if d == 8 {
        "8"
    } else {
        "9"
    }
}

fn push_digits(s: &mut String, n: u64)
    ensures
        final(s)@ == old(s)@ + digits_of(n as nat),
    decreases n,
{
    if n >= 10 {
        push_digits(s, n / 10);
    }
    s.append(digit_text(n % 10));
    proof {
        if n >= 10 {
            assert(old(s)@ + digits_of((n / 10) as nat) + seq![digit_char((n % 10) as int)]
                =~= old(s)@ + digits_of(n as nat));
        } else {
            assert(old(s)@ + seq![digit_char((n % 10) as int)] =~= old(s)@ + digits_of(n as nat));
        }
    }
}

/// Decimal text of `n`.
pub fn decimal(n: i64) -> (r: String)
    ensures
        r@ == decimal_of(n as int),
{
    let mut s = String::new();
    if n < 0 {
        s.append("-");
        proof {
            reveal_strlit("-");
        }
        let m: u64 = (0i128 - n as i128) as u64;
        push_digits(&mut s, m);
        assert(s@ =~= seq!['-'] + digits_of((-n) as nat));
    } else {
        push_digits(&mut s, n as u64);
        assert(s@ =~= digits_of(n as nat));
    }
    s
}

impl QueryOptions {
    /// The page this query shows: its page when that is positive, else 1.
    pub open spec fn current_page(&self) -> int {
        match self.page {
            Some(p) => if p > 0 {
                p as int
            } else {
                1
            },
            None => 1,
        }
    }

    /// Queries for the previous and the next page, with the same search. The next
    /// page number stops at `i64::MAX`.
    pub fn get_neighbour_pages(&self) -> (r: (QueryOptions, QueryOptions))
        ensures
            r.0.page == Some((self.current_page() - 1) as i64),
            r.1.page == Some(
                (if self.current_page() < i64::MAX {
                    self.current_page() + 1
                } else {
                    self.current_page()
                }) as i64,
            ),
            r.0.search_string == self.search_string,
            r.1.search_string == self.search_string,
    {
        let current_page: i64 = match self.page {
            Some(s) => if s > 0 {
                s
            } else {
                1
            },
            None => 1,
        };
        let next = if current_page < i64::MAX {
            current_page + 1
        } else {
            current_page
        };
        let prev_search = match &self.search_string {
            Some(s) => Some(s.clone()),
            None => None,
        };
        let next_search = match &self.search_string {
            Some(s) => Some(s.clone()),
            None => None,
        };
        (
            QueryOptions { page: Some(current_page - 1), search_string: prev_search },
            QueryOptions { page: Some(next), search_string: next_search },
        )
    }

    /// The query as it stands in a link.
    pub fn to_query_string(&self) -> (r: String)
        ensures
            r@ == seq!['?'] + page_text(self.page) + search_text(self.search_string),
    {
        proof {
            reveal_strlit("?");
            reveal_strlit("page=");
            reveal_strlit("&");
            reveal_strlit("search_string=");
        }
        let mut out = String::new();
        out.append("?");
        let ghost after_mark = out@;
        match self.page {
            Some(p) => {
                out.append("page=");
                let digits = decimal(p);
                out.append(digits.as_str());
                out.append("&");
            },
            None => {},
        }
        let ghost after_page = out@;
        match &self.search_string {
            Some(s) => {
                out.append("search_string=");
                out.append(s.as_str());
                out.append("&");
            },
            None => {},
        }
        assert(after_mark =~= seq!['?']);
        assert(after_page =~= after_mark + page_text(self.page));
        assert(out@ =~= after_page + search_text(self.search_string));
        out
    }
}

} // verus!
