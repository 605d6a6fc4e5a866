//! The parts of the SVG charts that are laid out without plotting.
use vstd::prelude::*;
use crate::models::metrics::{TrainingSession, record_entries_of};
use crate::text::{decimal, push_decimal};

verus! {

/// The placeholder drawn where a chart has no data.
pub open spec fn empty_chart_text(title: Seq<char>, width: u32, height: u32) -> Seq<char> {
    "<svg viewBox=\"0 0 "@ + decimal(width as nat) + " "@ + decimal(height as nat)
        + "\" xmlns=\"http://www.w3.org/2000/svg\">\n  <rect width=\""@ + decimal(width as nat)
        + "\" height=\""@ + decimal(height as nat)
        + "\" fill=\"rgb(243,244,246)\" rx=\"8\"/>\n  <text x=\""@ + decimal((width / 2) as nat)
        + "\" y=\""@ + decimal((height / 2 - 5) as nat)
        + "\" text-anchor=\"middle\" fill=\"rgb(156,163,175)\" font-size=\"14\">"@ + title
        + "</text>\n  <text x=\""@ + decimal((width / 2) as nat) + "\" y=\""@ + decimal(
        (height / 2 + 15) as nat,
    ) + "\" text-anchor=\"middle\" fill=\"rgb(156,163,175)\" font-size=\"11\">Yetersiz veri</text>\n</svg>"@
}

/// The placeholder shown where the dashboard has no data.
pub open spec fn empty_dashboard_text() -> Seq<char> {
    "<div style=\"padding: 20px; background: rgb(243,244,246); border-radius: 8px; text-align: center; color: rgb(156,163,175);\">\n  Dashboard icin yeterli veri yok\n</div>"@
}

/// Four charts in a two-column grid, in reading order.
pub open spec fn grid_text(c1: Seq<char>, c2: Seq<char>, c3: Seq<char>, c4: Seq<char>) -> Seq<
    char,
> {
    "<div style=\"display: grid; grid-template-columns: 1fr 1fr; gap: 16px; max-width: 900px;\">"@
        + "\n  <div>"@ + c1 + "</div>"@ + "\n  <div>"@ + c2 + "</div>"@ + "\n  <div>"@ + c3
        + "</div>"@ + "\n  <div>"@ + c4 + "</div>"@ + "\n</div>"@
}

/// Draws the training charts as inline SVG.
pub struct SvgChartGenerator;

impl SvgChartGenerator {
    /// The placeholder chart of the given size, titled `title`.
    pub fn empty_chart(title: &str, width: u32, height: u32) -> (r: String)
        requires
            height >= 10,
        ensures
            r@ == empty_chart_text(title@, width, height),
    {
        let mut s = String::from_str("<svg viewBox=\"0 0 ");
        push_decimal(&mut s, width as u64);
        s.append(" ");
        push_decimal(&mut s, height as u64);
        s.append("\" xmlns=\"http://www.w3.org/2000/svg\">\n  <rect width=\"");
        push_decimal(&mut s, width as u64);
        s.append("\" height=\"");
        push_decimal(&mut s, height as u64);
        s.append("\" fill=\"rgb(243,244,246)\" rx=\"8\"/>\n  <text x=\"");
        push_decimal(&mut s, (width / 2) as u64);
        s.append("\" y=\"");
        push_decimal(&mut s, (height / 2 - 5) as u64);
        s.append("\" text-anchor=\"middle\" fill=\"rgb(156,163,175)\" font-size=\"14\">");
        s.append(title);
        s.append("</text>\n  <text x=\"");
        push_decimal(&mut s, (width / 2) as u64);
        s.append("\" y=\"");
        push_decimal(&mut s, (height / 2 + 15) as u64);
        s.append(
            "\" text-anchor=\"middle\" fill=\"rgb(156,163,175)\" font-size=\"11\">Yetersiz veri</text>\n</svg>",
        );
        assert(s@ =~= empty_chart_text(title@, width, height));
        s
    }

    /// The placeholder dashboard.
    pub fn empty_dashboard() -> (r: String)
        ensures
            r@ == empty_dashboard_text(),
    {
        String::from_str(
            "<div style=\"padding: 20px; background: rgb(243,244,246); border-radius: 8px; text-align: center; color: rgb(156,163,175);\">\n  Dashboard icin yeterli veri yok\n</div>",
        )
    }

    /// The risk dashboard: the fitness, PnL, win-rate and profit-factor charts
    /// of the session, each 400 by 200, drawn by `line_chart` and laid out two
    /// by two; the placeholder where the session has no `Record` entry.
    pub fn dashboard_grid<F, R: Fn(&TrainingSession<F>, &str, &str, &str, u32, u32) -> String>(
        session: &TrainingSession<F>,
        line_chart: &R,
    ) -> (r: String)
        requires
            forall|s: &TrainingSession<F>, k: &str, t: &str, c: &str, w: u32, h: u32|
                call_requires(*line_chart, (s, k, t, c, w, h)),
        ensures
            record_entries_of(session.records@).len() == 0 ==> r@ == empty_dashboard_text(),
            record_entries_of(session.records@).len() > 0 ==> exists|
                c1: String,
                c2: String,
                c3: String,
                c4: String,
            |
                {
                    &&& call_ensures(
                        *line_chart,
                        (session, "fitness", "Fitness", "#2563eb", 400u32, 200u32),
                        c1,
                    )
                    &&& call_ensures(
                        *line_chart,
                        (session, "pnl", "PnL ($)", "#dc2626", 400u32, 200u32),
                        c2,
                    )
                    &&& call_ensures(
                        *line_chart,
                        (session, "win_rate", "WinRate (%)", "#16a34a", 400u32, 200u32),
                        c3,
                    )
                    &&& call_ensures(
                        *line_chart,
                        (session, "profit_factor", "Profit Factor", "#9333ea", 400u32, 200u32),
                        c4,
                    )
                    &&& r@ == grid_text(c1@, c2@, c3@, c4@)
                },
    {
        let records = session.record_entries();
        if records.len() == 0 {
            return Self::empty_dashboard();
        }
        let w: u32 = 400;
        let h: u32 = 200;
        let chart1 = line_chart(session, "fitness", "Fitness", "#2563eb", w, h);
        let chart2 = line_chart(session, "pnl", "PnL ($)", "#dc2626", w, h);
        let chart3 = line_chart(session, "win_rate", "WinRate (%)", "#16a34a", w, h);
        let chart4 = line_chart(session, "profit_factor", "Profit Factor", "#9333ea", w, h);
        let mut result = String::from_str(
            "<div style=\"display: grid; grid-template-columns: 1fr 1fr; gap: 16px; max-width: 900px;\">",
        );
        result.append("\n  <div>");
        result.append(chart1.as_str());
        result.append("</div>");
        result.append("\n  <div>");
        result.append(chart2.as_str());
        result.append("</div>");
        result.append("\n  <div>");
        result.append(chart3.as_str());
        result.append("</div>");
        result.append("\n  <div>");
        result.append(chart4.as_str());
        result.append("</div>");
        result.append("\n</div>");
        assert(result@ =~= grid_text(chart1@, chart2@, chart3@, chart4@));
        result
    }
}

} // verus!
