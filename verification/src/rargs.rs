//! The process-wide configuration: the compiled line pattern, the
//! command name, the compiled argument templates, and the default
//! separator.  Built once, then used to expand every input line into
//! the command's argument list.

use regex::Regex;
use vstd::prelude::*;

use crate::combine::{spec_expand, spec_group};
use crate::context::{built_ctx, CtxView, RegexContext};
use crate::decimal::{i32_decimal, spec_i32_string};
use crate::field::FragView;
use crate::re::regex_ok;
use crate::template::{spec_template, ArgTemplate};

verus! {

/// The context one line is expanded against: the capture-built
/// context, the configured default separator, and the two line-number
/// pseudo-fields added last so that they override captures.
pub open spec fn line_ctx(
    content: Seq<char>,
    names: Seq<Option<Seq<char>>>,
    texts: Seq<Seq<Option<Seq<char>>>>,
    sep: Seq<char>,
    line_num: int,
) -> CtxView {
    CtxView {
        entries: built_ctx(content, names, texts).entries.push(
            ("LINENUM"@, spec_i32_string(line_num)),
        ).push(("LN"@, spec_i32_string(line_num))),
        groups: built_ctx(content, names, texts).groups,
        default_sep: sep,
    }
}

/// The arguments of the templates from index `i` on, each expanded
/// against the context, concatenated in template order.
pub open spec fn expand_from(ts: Seq<Seq<FragView>>, ctx: CtxView, i: int) -> Seq<Seq<char>>
    decreases ts.len() - i when 0 <= i
{
    if i >= ts.len() {
        Seq::empty()
    } else {
        spec_expand(spec_group(ts[i]), ctx) + expand_from(ts, ctx, i + 1)
    }
}

/// The pattern text a run compiles: the explicit pattern where one is
/// given, else the assembled delimiter pattern, else the default
/// whitespace-delimited-fields pattern.
pub open spec fn spec_pattern_text(
    pattern: Option<Seq<char>>,
    delimiter: Option<Seq<char>>,
) -> Seq<char> {
    match pattern {
        Some(p) => p,
        None => match delimiter {
            Some(d) => "(.*?)"@ + d + "|(.*?)$"@,
            None => "(.*?)[[:space:]]+|(.*?)$"@,
        },
    }
}

/// One run's configuration: pattern, command, templates, separator.
pub struct Rargs {
    pub pattern: Regex,
    pub command: String,
    pub args: Vec<ArgTemplate>,
    pub default_sep: String,
}

impl Rargs {
    /// Compile the configuration: an explicit pattern wins, else a
    /// delimiter pattern is assembled, else whitespace-delimited
    /// fields; fails when the pattern does not compile.
    pub fn new(
        pattern: Option<&str>,
        delimiter: Option<&str>,
        separator: &str,
        cmd_and_args: &Vec<String>,
    ) -> (r: Option<Rargs>)
        requires
            cmd_and_args@.len() >= 1,
        ensures
            r is Some <==> regex_ok(
                spec_pattern_text(pattern.deep_view(), delimiter.deep_view()),
            ),
            match r {
                Some(rg) => {
                    &&& rg.command@ == cmd_and_args.deep_view()[0]
                    &&& rg.default_sep@ == separator@
                    &&& rg.args.deep_view().len() == cmd_and_args@.len() - 1
                    &&& forall|i: int|
                        0 <= i < cmd_and_args@.len() - 1 ==> rg.args.deep_view()[i]
                            == spec_template(#[trigger] cmd_and_args.deep_view()[i + 1])
                },
                None => true,
            },
    {
        let pat: Option<Regex> = match pattern {
            Some(p) => {
                let compiled = crate::re::regex_new(p);
                proof {
                    assert(spec_pattern_text(pattern.deep_view(), delimiter.deep_view()) == p@);
                }
                compiled
            },
            None => match delimiter {
                Some(d) => {
                    let mut ps = String::from_str("(.*?)");
                    ps.append(d);
                    ps.append("|(.*?)$");
                    let compiled = crate::re::regex_new(ps.as_str());
                    proof {
                        assert(spec_pattern_text(pattern.deep_view(), delimiter.deep_view())
                            == ps@);
                    }
                    compiled
                },
                None => crate::re::regex_new("(.*?)[[:space:]]+|(.*?)$"),
            },
        };
        let compiled = match pat {
            Some(p) => p,
            None => {
                return None;
            },
        };
        let command = cmd_and_args[0].clone();
        let mut args: Vec<ArgTemplate> = Vec::new();
        let mut i: usize = 1;
        while i < cmd_and_args.len()
            invariant
                1 <= i <= cmd_and_args@.len(),
                args.deep_view().len() == i - 1,
                forall|k: int|
                    0 <= k < i - 1 ==> args.deep_view()[k] == spec_template(
                        #[trigger] cmd_and_args.deep_view()[k + 1],
                    ),
            decreases cmd_and_args@.len() - i,
        {
            let ghost pre = args.deep_view();
            let t = ArgTemplate::from(cmd_and_args[i].as_str());
            args.push(t);
            proof {
                assert(args.deep_view() =~= pre.push(
                    spec_template(cmd_and_args.deep_view()[i as int]),
                ));
            }
            i = i + 1;
        }
        Some(
            Rargs {
                pattern: compiled,
                command,
                args,
                default_sep: String::from_str(separator),
            },
        )
    }

    /// Expand every template against one line, in template order: the
    /// external command's argument list for that line.
    pub fn get_args(&self, line: &str, line_num: i32) -> (r: Vec<String>)
        ensures
            exists|names: Seq<Option<Seq<char>>>, texts: Seq<Seq<Option<Seq<char>>>>|
                r.deep_view() == expand_from(
                    self.args.deep_view(),
                    line_ctx(line@, names, texts, self.default_sep@, line_num as int),
                    0,
                ),
    {
        let base = RegexContext::builder(&self.pattern, line);
        let ghost basev = base@;
        let context = base.default_sep(self.default_sep.clone()).put(
            "LINENUM",
            i32_decimal(line_num),
        ).put("LN", i32_decimal(line_num)).build();
        proof {
            let (nd, td) = choose|
                nd: Seq<Option<Seq<char>>>,
                td: Seq<Seq<Option<Seq<char>>>>,
            | basev == built_ctx(line@, nd, td);
            assert(context@ =~= line_ctx(
                line@,
                nd,
                td,
                self.default_sep@,
                line_num as int,
            ));
        }
        let ghost ctxv = context@;
        let mut r: Vec<String> = Vec::new();
        let mut i: usize = 0;
        proof {
            assert(r.deep_view() =~= Seq::<Seq<char>>::empty());
            assert(r.deep_view() + expand_from(self.args.deep_view(), ctxv, 0) =~= expand_from(
                self.args.deep_view(),
                ctxv,
                0,
            ));
        }
        while i < self.args.len()
            invariant
                i <= self.args.len(),
                ctxv == context@,
                expand_from(self.args.deep_view(), ctxv, 0) == r.deep_view() + expand_from(
                    self.args.deep_view(),
                    ctxv,
                    i as int,
                ),
            decreases self.args.len() - i,
        {
            let ghost pre = r.deep_view();
            let mut vs = self.args[i].apply_context(&context);
            let ghost vsv = vs.deep_view();
            r.append(&mut vs);
            proof {
                assert(r.deep_view() =~= pre + vsv);
                assert(vsv == spec_expand(spec_group(self.args.deep_view()[i as int]), ctxv));
                assert(pre + (spec_expand(spec_group(self.args.deep_view()[i as int]), ctxv)
                    + expand_from(self.args.deep_view(), ctxv, i as int + 1)) =~= (pre
                    + spec_expand(spec_group(self.args.deep_view()[i as int]), ctxv))
                    + expand_from(self.args.deep_view(), ctxv, i as int + 1));
            }
            i = i + 1;
        }
        proof {
            assert(expand_from(self.args.deep_view(), ctxv, self.args.len() as int) =~= Seq::<
                Seq<char>,
            >::empty());
            assert(r.deep_view() =~= expand_from(self.args.deep_view(), ctxv, 0));
            let (nd, td) = choose|
                nd: Seq<Option<Seq<char>>>,
                td: Seq<Seq<Option<Seq<char>>>>,
            | basev == built_ctx(line@, nd, td);
            assert(ctxv =~= line_ctx(line@, nd, td, self.default_sep@, line_num as int));
            assert(r.deep_view() == expand_from(
                self.args.deep_view(),
                line_ctx(line@, nd, td, self.default_sep@, line_num as int),
                0,
            ));
        }
        r
    }
}

} // verus!
