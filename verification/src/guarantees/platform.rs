//! What is told of a platform and its cookies, of the quality of a recording, and how a cover is
//! made.
use crate::cookie_health::{
    after_error, after_success, below_alert, carries, display_spec, effective_threshold,
    error_kind, quality_name, rank, recovered_content, recovered_title, reports_error,
    unchecked_health, ErrorReport,
    HealthErrorKind, HealthView, WebhookRequest,
};
use crate::cover_generator::{
    at_least, first_shape, glyph_number, glyph_numbers, has_shape, line_fonts, run_extended,
    runs_spec, template_lines, RunView,
};
use crate::disk_space::{counted_size, VolumeReading};
use crate::parse::split_spec;
use crate::text::{contains_text, decimal, lower_spec, replace_spec, trim_spec};
use crate::urls::percent_encoded;
use vstd::prelude::*;

verus! {

/// An error that speaks of a refused login in any of these words, in any capitals, is one of
/// authentication, whatever else it says.
pub proof fn law_a_refused_login_is_known_by_its_words(error: Seq<char>)
    requires
        ({
            let lower = lower_spec(error);
            ||| contains_text(lower, "401"@)
            ||| contains_text(lower, "403"@)
            ||| contains_text(lower, "unauthorized"@)
            ||| contains_text(lower, "forbidden"@)
            ||| contains_text(lower, "login expired"@)
            ||| contains_text(lower, "session invalid"@)
            ||| contains_text(lower, "风控"@)
            ||| contains_text(lower, "登录态"@)
        }),
    ensures
        error_kind(error) == HealthErrorKind::Authentication,
{
}

/// An error that speaks of none of these is one of transport where it speaks of the way to the
/// platform, one of the server where it names a status from 500 to 599, and otherwise one of the
/// answer.
pub proof fn law_other_errors_are_told_apart(error: Seq<char>, status: int)
    requires
        ({
            let lower = lower_spec(error);
            &&& !contains_text(lower, "401"@)
            &&& !contains_text(lower, "403"@)
            &&& !contains_text(lower, "unauthorized"@)
            &&& !contains_text(lower, "forbidden"@)
            &&& !contains_text(lower, "login expired"@)
            &&& !contains_text(lower, "session invalid"@)
            &&& !contains_text(lower, "风控"@)
            &&& !contains_text(lower, "登录态"@)
        }),
    ensures
        ({
            let lower = lower_spec(error);
            let transport = contains_text(lower, "timeout"@) || contains_text(lower, "timed out"@)
                || contains_text(lower, "dns"@) || contains_text(lower, "certificate"@)
                || contains_text(lower, "connection"@) || contains_text(lower, "reset"@)
                || contains_text(lower, "network"@);
            &&& error_kind(error) == HealthErrorKind::Transport <==> transport
            &&& !transport && 500 <= status <= 599 && contains_text(lower, decimal(status as nat))
                ==> error_kind(error) == HealthErrorKind::Server
            &&& !transport && (forall|s: int|
                500 <= s <= 599 ==> !contains_text(lower, #[trigger] decimal(s as nat)))
                ==> error_kind(error) == HealthErrorKind::InvalidResponse
            &&& error_kind(error) != HealthErrorKind::Authentication
        }),
{
}

/// A refused login counts one more in a row unless an error came in less than fifteen seconds
/// before; any other error leaves the count. The third in a row makes the platform unhealthy from
/// that moment on, and every error is kept with its kind, its time and its first 300 characters
/// and raises the number of its kind.
pub proof fn law_errors_are_kept_and_counted(h: HealthView, error: Seq<char>, now: i64)
    requires
        0 <= h.consecutive_errors < u32::MAX,
        h.authentication_errors < u64::MAX,
        h.transport_errors < u64::MAX,
        h.server_errors < u64::MAX,
        h.invalid_response_errors < u64::MAX,
    ensures
        ({
            let after = after_error(h, error, now);
            let kind = error_kind(error);
            let soon = h.last_error_ms is Some && now - h.last_error_ms->0 < 15_000;
            let counted = kind == HealthErrorKind::Authentication && !soon;
            &&& after.consecutive_errors == h.consecutive_errors + (if counted {
                1int
            } else {
                0
            })
            &&& after.unhealthy == (h.unhealthy || (counted && h.consecutive_errors + 1 >= 3))
            &&& counted && !h.unhealthy && h.consecutive_errors + 1 >= 3 ==> after.since_ms == Some(
                now,
            )
            &&& !counted || h.unhealthy || h.consecutive_errors + 1 < 3 ==> after.since_ms
                == h.since_ms
            &&& after.last_error_ms == Some(now)
            &&& after.last_error_kind == Some(kind)
            &&& after.last_error == Some(
                if error.len() <= 300 {
                    error
                } else {
                    error.take(300)
                },
            )
            &&& after.last_ok_ms == h.last_ok_ms
            &&& after.authentication_errors == h.authentication_errors + (if kind
                == HealthErrorKind::Authentication {
                1int
            } else {
                0
            })
            &&& after.transport_errors == h.transport_errors + (if kind
                == HealthErrorKind::Transport {
                1int
            } else {
                0
            })
            &&& after.server_errors == h.server_errors + (if kind == HealthErrorKind::Server {
                1int
            } else {
                0
            })
            &&& after.invalid_response_errors == h.invalid_response_errors + (if kind
                == HealthErrorKind::InvalidResponse {
                1int
            } else {
                0
            })
        }),
{
}

/// Three refused logins, each fifteen seconds or more behind the one before it, raise the alert
/// with the third and not before; a fourth does not raise it again, and one success clears it.
pub proof fn law_three_refusals_raise_the_alert(
    platform: Seq<char>,
    errors: (Seq<char>, Seq<char>, Seq<char>, Seq<char>),
    times: (i64, i64, i64, i64),
    reports: (ErrorReport, ErrorReport, ErrorReport, ErrorReport),
    later: i64,
)
    requires
        contains_text(lower_spec(errors.0), "401"@),
        contains_text(lower_spec(errors.1), "403"@),
        contains_text(lower_spec(errors.2), "unauthorized"@),
        contains_text(lower_spec(errors.3), "forbidden"@),
        times.1 - times.0 >= 15_000,
        times.2 - times.1 >= 15_000,
        times.3 - times.2 >= 15_000,
        ({
            let none = unchecked_health(platform);
            let one = after_error(none, errors.0, times.0);
            let two = after_error(one, errors.1, times.1);
            let three = after_error(two, errors.2, times.2);
            &&& reports_error(reports.0, none, platform, errors.0, times.0)
            &&& reports_error(reports.1, one, platform, errors.1, times.1)
            &&& reports_error(reports.2, two, platform, errors.2, times.2)
            &&& reports_error(reports.3, three, platform, errors.3, times.3)
        }),
    ensures
        reports.0.alert is None,
        reports.1.alert is None,
        reports.2.alert is Some,
        reports.2.became_unhealthy == Some(3u32),
        reports.3.alert is None,
        reports.0.reported && reports.1.reported && reports.2.reported && reports.3.reported,
        ({
            let none = unchecked_health(platform);
            let one = after_error(none, errors.0, times.0);
            let two = after_error(one, errors.1, times.1);
            let three = after_error(two, errors.2, times.2);
            let well = after_success(three, later);
            &&& !one.unhealthy && !two.unhealthy && three.unhealthy
            &&& !well.unhealthy && well.consecutive_errors == 0 && well.since_ms is None
                && well.last_error is None && well.last_error_kind is None && well.last_ok_ms
                == Some(later)
            &&& well.authentication_errors == 3
        }),
{
}

/// An error within fifteen seconds of the one before is kept and not counted; one of
/// authentication is then not reported either, while errors of other kinds always are.
pub proof fn law_repeats_are_kept_quiet(
    report: ErrorReport,
    before: HealthView,
    platform: Seq<char>,
    error: Seq<char>,
    now: i64,
)
    requires
        reports_error(report, before, platform, error, now),
    ensures
        report.kind == error_kind(error),
        error_kind(error) != HealthErrorKind::Authentication ==> report.reported
            && report.alert is None && report.became_unhealthy is None,
        before.last_error_ms is Some && now - before.last_error_ms->0 < 15_000 ==> report.reported
            == (error_kind(error) != HealthErrorKind::Authentication) && report.alert is None,
        before.unhealthy ==> report.alert is None,
        report.alert is Some ==> report.alert->0.title@ == "⚠️ "@ + display_spec(platform)
            + " cookie 鉴权连续失败"@ && report.alert->0.content@ == display_spec(platform)
            + " 直播间连续检查失败，建议尽快更换 cookie（sessionid）。最近错误："@
            + error,
{
}

/// A success forgets every error but the numbers of their kinds.
pub proof fn law_a_success_clears_the_errors(h: HealthView, now: i64)
    ensures
        ({
            let after = after_success(h, now);
            &&& after.last_ok_ms == Some(now)
            &&& after.consecutive_errors == 0
            &&& !after.unhealthy
            &&& after.since_ms is None
            &&& after.last_error is None
            &&& after.last_error_kind is None
            &&& after.last_error_ms == h.last_error_ms
            &&& after.platform == h.platform
            &&& after.authentication_errors == h.authentication_errors
            &&& after.transport_errors == h.transport_errors
            &&& after.server_errors == h.server_errors
            &&& after.invalid_response_errors == h.invalid_response_errors
        }),
{
}

/// What is told of a platform that recovered, in the name under which it is known.
pub proof fn law_what_a_recovery_says(platform: Seq<char>)
    ensures
        platform == "Douyin"@ ==> display_spec(platform) == "抖音"@,
        platform != "Douyin"@ ==> display_spec(platform) == platform,
        recovered_title(platform) == "✅ "@ + display_spec(platform) + " cookie 已恢复正常"@,
        recovered_content(platform) == display_spec(platform)
            + " 直播间检查恢复成功，cookie 工作正常。"@,
{
}

proof fn lemma_codes()
    ensures
        "origin"@ != "uhd"@,
        "origin"@ != "hd"@,
        "origin"@ != "sd"@,
        "origin"@ != "ld"@,
        "origin"@ != "md"@,
        "uhd"@ != "hd"@,
        "uhd"@ != "sd"@,
        "uhd"@ != "ld"@,
        "uhd"@ != "md"@,
        "hd"@ != "sd"@,
        "hd"@ != "ld"@,
        "hd"@ != "md"@,
        "sd"@ != "ld"@,
        "sd"@ != "md"@,
        "ld"@ != "md"@,
        "off"@ != "origin"@,
        "off"@ != "uhd"@,
        "off"@ != "hd"@,
        "off"@ != "sd"@,
        "off"@ != "ld"@,
        "off"@ != "md"@,
{
    reveal_strlit("origin");
    reveal_strlit("uhd");
    reveal_strlit("hd");
    reveal_strlit("sd");
    reveal_strlit("ld");
    reveal_strlit("md");
    reveal_strlit("off");
    assert("origin"@.len() == 6);
    assert("uhd"@.len() == 3 && "uhd"@[0] == 'u');
    assert("off"@.len() == 3 && "off"@[0] == 'o');
    assert("hd"@.len() == 2 && "hd"@[0] == 'h');
    assert("sd"@.len() == 2 && "sd"@[0] == 's');
    assert("ld"@.len() == 2 && "ld"@[0] == 'l');
    assert("md"@.len() == 2 && "md"@[0] == 'm');
}

/// The qualities from the best to the worst, of which an unknown one is the worst, and their
/// names.
pub proof fn law_qualities_have_their_order(code: Seq<char>)
    ensures
        rank("origin"@) < rank("uhd"@) < rank("hd"@) < rank("sd"@) < rank("ld"@) < rank("md"@),
        rank(code) >= rank("origin"@),
        code != "origin"@ && code != "uhd"@ && code != "hd"@ && code != "sd"@ && code != "ld"@
            && code != "md"@ ==> rank(code) > rank("md"@) && quality_name(code) == code,
        rank("origin"@) == 0,
        rank("uhd"@) == 1,
        rank("hd"@) == 2,
        rank("sd"@) == 3,
        rank("ld"@) == 4,
        rank("md"@) == 5,
        quality_name("origin"@) == "原画"@,
        quality_name("uhd"@) == "蓝光"@,
        quality_name("hd"@) == "超清"@,
        quality_name("sd"@) == "高清"@,
        quality_name("ld"@) == "标清"@,
        quality_name("md"@) == "流畅"@,
{
    lemma_codes();
}

/// The alert is raised where the quality is worse than the threshold, never where it is as good,
/// and never where the threshold is `off`; no threshold, or a blank one, means `uhd`.
pub proof fn law_a_worse_quality_is_alerted(actual: Seq<char>, threshold: Option<&str>)
    ensures
        ({
            let given = threshold is Some && trim_spec(threshold->0@).len() > 0;
            let set = if given {
                trim_spec(threshold->0@)
            } else {
                "uhd"@
            };
            &&& effective_threshold(threshold) == set
            &&& set == "off"@ ==> !below_alert(actual, threshold)
            &&& set != "off"@ ==> (below_alert(actual, threshold) <==> rank(actual) > rank(set))
            &&& actual == set ==> !below_alert(actual, threshold)
            &&& actual == "origin"@ ==> !below_alert(actual, threshold)
            &&& !given ==> (below_alert(actual, threshold) <==> actual != "origin"@ && actual
                != "uhd"@)
        }),
{
    lemma_codes();
}

/// An alert goes to a chat robot of either kind as a text that holds its title and its content on
/// lines of their own; to an address with room for them inside the address; and to any other as
/// it is.
pub proof fn law_an_alert_goes_as_the_address_wants(
    request: WebhookRequest,
    url: Seq<char>,
    title: Seq<char>,
    content: Seq<char>,
)
    requires
        carries(request, url, title, content),
    ensures
        contains_text(url, "oapi.dingtalk.com"@) ==> (request matches WebhookRequest::PostText {
            url: u,
            text,
            dingtalk,
        } && u@ == url && dingtalk && text@ == "【biliup】"@ + title + "\n"@ + content),
        !contains_text(url, "oapi.dingtalk.com"@) && contains_text(url, "qyapi.weixin.qq.com"@)
            ==> (
        request matches WebhookRequest::PostText { url: u, text, dingtalk } && u@ == url
            && !dingtalk && text@ == title + "\n"@ + content),
        !contains_text(url, "oapi.dingtalk.com"@) && !contains_text(url, "qyapi.weixin.qq.com"@)
            && (contains_text(url, "{title}"@) || contains_text(url, "{content}"@)) ==> (
        request matches WebhookRequest::Get { url: u } && u@ == replace_spec(
            replace_spec(url, "{title}"@, percent_encoded(title)),
            "{content}"@,
            percent_encoded(content),
        )),
        !contains_text(url, "oapi.dingtalk.com"@) && !contains_text(url, "qyapi.weixin.qq.com"@)
            && !contains_text(url, "{title}"@) && !contains_text(url, "{content}"@) ==> (
        request matches WebhookRequest::PostJson { url: u, title: t, content: c } && u@ == url
            && t@ == title && c@ == content),
{
}

/// A character is drawn in the first font that has a shape for it, where the number zero stands
/// for none, and in the first font of all where none has.
pub proof fn law_the_first_font_with_a_shape_is_taken(numbers: Seq<Option<u16>>, at: int)
    requires
        0 <= at <= numbers.len(),
        forall|i: int|
            0 <= i < at ==> (#[trigger] numbers[i] is None || numbers[i] == Some(0u16)),
        at < numbers.len() ==> numbers[at] is Some && numbers[at]->0 != 0,
    ensures
        first_shape(numbers) == (if at < numbers.len() {
            at
        } else {
            0
        }),
    decreases numbers.len(),
{
    if numbers.len() > 0 {
        let rest = numbers.drop_last();
        assert forall|i: int| 0 <= i < rest.len() && i < at implies (#[trigger] rest[i] is None
            || rest[i] == Some(0u16)) by {
            assert(rest[i] == numbers[i]);
        }
        if at < rest.len() {
            assert(rest[at] == numbers[at]);
            assert(has_shape(rest[at]));
            law_the_first_font_with_a_shape_is_taken(rest, at);
        } else {
            law_the_first_font_with_a_shape_is_taken(rest, rest.len() as int);
            assert forall|i: int| 0 <= i < rest.len() implies !has_shape(#[trigger] rest[i]) by {
                assert(rest[i] == numbers[i]);
            }
            if at == numbers.len() {
                assert(!has_shape(numbers[numbers.len() - 1]));
            }
        }
    }
}

/// A character is looked up in every font in turn, and every character of a line for itself.
pub proof fn law_every_font_is_asked(fonts: Seq<Vec<u8>>, line: Seq<char>, i: int, at: int)
    requires
        0 <= i < line.len(),
        0 <= at <= fonts.len(),
        forall|j: int|
            0 <= j < at ==> (glyph_number((#[trigger] fonts[j])@, line[i]) is None || glyph_number(
                fonts[j]@,
                line[i],
            ) == Some(0u16)),
        at < fonts.len() ==> glyph_number(fonts[at]@, line[i]) is Some && glyph_number(
            fonts[at]@,
            line[i],
        )->0 != 0,
    ensures
        line_fonts(fonts, line).len() == line.len(),
        line_fonts(fonts, line)[i] == (if at < fonts.len() {
            at
        } else {
            0
        }),
{
    let numbers = glyph_numbers(fonts, line[i]);
    assert forall|j: int| 0 <= j < at implies (#[trigger] numbers[j] is None || numbers[j] == Some(
        0u16,
    )) by {
        assert(numbers[j] == glyph_number(fonts[j]@, line[i]));
    }
    law_the_first_font_with_a_shape_is_taken(numbers, at);
}

/// The font of every character of the runs, one by one.
pub open spec fn fonts_of_runs(runs: Seq<RunView>) -> Seq<int>
    decreases runs.len(),
{
    if runs.len() == 0 {
        Seq::<int>::empty()
    } else {
        fonts_of_runs(runs.drop_last()) + Seq::new(
            runs.last().text.len(),
            |i: int| runs.last().font,
        )
    }
}

/// Every character of a line is drawn in the font that was found for it.
pub proof fn law_every_character_keeps_its_font(line: Seq<char>, fonts: Seq<int>)
    requires
        line.len() == fonts.len(),
    ensures
        fonts_of_runs(runs_spec(line, fonts)) == fonts,
    decreases line.len(),
{
    if line.len() > 0 {
        law_every_character_keeps_its_font(line.drop_last(), fonts.drop_last());
        let runs = runs_spec(line.drop_last(), fonts.drop_last());
        let after = run_extended(runs, fonts.last(), line.last());
        let last = fonts.last();
        if runs.len() > 0 && runs.last().font == last {
            assert(after.drop_last() =~= runs.drop_last());
            assert(fonts_of_runs(runs) =~= fonts_of_runs(runs.drop_last()) + Seq::new(
                runs.last().text.len(),
                |i: int| last,
            ));
            assert(fonts_of_runs(after) =~= fonts_of_runs(runs).push(last));
        } else {
            assert(after.drop_last() =~= runs);
            assert(fonts_of_runs(after) =~= fonts_of_runs(runs).push(last));
        }
        assert(fonts.drop_last().push(last) =~= fonts);
    } else {
        assert(fonts =~= Seq::<int>::empty());
    }
}

/// A template is broken into lines at line ends and at the two characters that stand for one.
pub proof fn law_templates_break_into_lines(text: Seq<char>)
    ensures
        template_lines(text) == split_spec(replace_spec(text, "\\n"@, "\n"@), '\n'),
{
}

/// A picture is never scaled below the canvas.
pub proof fn law_a_picture_fills_the_canvas(a: int, b: int)
    ensures
        at_least(a, b) >= a,
        at_least(a, b) >= b,
        at_least(a, b) == a || at_least(a, b) == b,
{
}

/// Free space is counted in fragments, and in blocks only where the file system names no size of
/// a fragment.
pub proof fn law_free_space_is_counted_in_fragments(reading: VolumeReading)
    ensures
        reading.fragment_size > 0 ==> counted_size(reading) == reading.fragment_size,
        reading.fragment_size == 0 ==> counted_size(reading) == reading.block_size,
{
}

} // verus!
