use vstd::prelude::*;

verus! {

/// What one run searches for, where, and how.
pub struct Config {
    pub query: String,
    pub file_path: String,
    pub ignore_case: bool,
    pub recursive: bool,
    pub hidden: bool,
    pub count: bool,
}

/// A flag is a dash followed by one of `i`, `r`, `a` or `c`.
pub open spec fn is_flag(a: Seq<char>) -> bool {
    a.len() == 2 && a[0] == '-' && (a[1] == 'i' || a[1] == 'r' || a[1] == 'a' || a[1] == 'c')
}

/// The texts of a sequence of strings.
pub open spec fn string_views(v: Seq<String>) -> Seq<Seq<char>> {
    v.map_values(|s: String| s@)
}

/// Every argument after the program name, the query and the path is a flag.
pub open spec fn flags_valid(args: Seq<Seq<char>>) -> bool {
    forall|k: int| 3 <= k < args.len() ==> is_flag(#[trigger] args[k])
}

/// The flag `-f` is among the arguments after the path.
pub open spec fn has_flag(args: Seq<Seq<char>>, f: char) -> bool {
    exists|k: int| 3 <= k < args.len() && #[trigger] args[k] == seq!['-', f]
}

pub open spec fn not_enough_message() -> Seq<char> {
    "not enough arguments"@
}

pub open spec fn unknown_flag_message() -> Seq<char> {
    "Unknown flag or parameter"@
}

/// The letter of a flag, or `None` for any other argument.
fn flag_letter(a: &str) -> (r: Option<char>)
    ensures
        r == (if is_flag(a@) { Some(a@[1]) } else { None::<char> }),
{
    if a.unicode_len() != 2 {
        return None;
    }
    let dash = a.get_char(0);
    let letter = a.get_char(1);
    if dash == '-' && (letter == 'i' || letter == 'r' || letter == 'a' || letter == 'c') {
        Some(letter)
    } else {
        None
    }
}

impl Config {
    /// Reads the program name, the query, the path and then flags from `args`;
    /// `ignore_case_env` tells whether the environment asks for case-insensitive
    /// search, which then holds whatever the flags say.
    pub fn build(args: &[String], ignore_case_env: bool) -> (r: Result<Config, &'static str>)
        ensures
            args@.len() < 3 ==> r is Err && r->Err_0@ == not_enough_message(),
            args@.len() >= 3 && !flags_valid(string_views(args@)) ==> r is Err && r->Err_0@
                == unknown_flag_message(),
            r is Ok <==> args@.len() >= 3 && flags_valid(string_views(args@)),
            r is Ok ==> ({
                let c = r->Ok_0;
                let a = string_views(args@);
                &&& c.query@ == a[1]
                &&& c.file_path@ == a[2]
                &&& c.ignore_case == (has_flag(a, 'i') || ignore_case_env)
                &&& c.recursive == has_flag(a, 'r')
                &&& c.hidden == has_flag(a, 'a')
                &&& c.count == has_flag(a, 'c')
            }),
    {
        let ghost a = string_views(args@);
        if args.len() < 3 {
            proof {
                reveal_strlit("not enough arguments");
            }
            return Err("not enough arguments");
        }
        let mut ignore_case = false;
        let mut recursive = false;
        let mut hidden = false;
        let mut count = false;
        let mut k: usize = 3;
        while k < args.len()
            invariant
                a == string_views(args@),
                3 <= k <= args@.len(),
                forall|j: int| 3 <= j < k ==> is_flag(#[trigger] a[j]),
                ignore_case == exists|j: int| 3 <= j < k && #[trigger] a[j] == seq!['-', 'i'],
                recursive == exists|j: int| 3 <= j < k && #[trigger] a[j] == seq!['-', 'r'],
                hidden == exists|j: int| 3 <= j < k && #[trigger] a[j] == seq!['-', 'a'],
                count == exists|j: int| 3 <= j < k && #[trigger] a[j] == seq!['-', 'c'],
            decreases args@.len() - k,
        {
            let letter = flag_letter(args[k].as_str());
            assert(args[k as int]@ == a[k as int]);
            match letter {
                Some(f) => {
                    assert(a[k as int] =~= seq!['-', f]);
                    if f == 'i' {
                        ignore_case = true;
                    } else if f == 'r' {
                        recursive = true;
                    } else if f == 'a' {
                        hidden = true;
                    } else {
                        count = true;
                    }
                },
                None => {
                    proof {
                        reveal_strlit("Unknown flag or parameter");
                    }
                    return Err("Unknown flag or parameter");
                },
            }
            k = k + 1;
        }
        let query = args[1].clone();
        let file_path = args[2].clone();
        Ok(Config {
            query,
            file_path,
            ignore_case: ignore_case || ignore_case_env,
            recursive,
            hidden,
            count,
        })
    }
}

} // verus!
