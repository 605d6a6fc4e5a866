//! Fixed parts of the Markdown training report.
use vstd::prelude::*;
use crate::models::criteria::{Status, risk_status};
use crate::text::{decimal, push_decimal};

verus! {

/// The report written while the log holds no record yet.
pub open spec fn empty_report_text() -> Seq<char> {
    "# 📊 Sentinel Eğitim Raporu\n\n> Henüz veri yok. CSV dosyası bekleniyor...\n\n*sentinel-reporter çalışıyor...*\n"@
}

/// The overfitting signals as list items (`  - ` before each), one per line.
pub open spec fn signal_lines(signals: Seq<String>) -> Seq<char>
    decreases signals.len(),
{
    if signals.len() == 0 {
        Seq::empty()
    } else if signals.len() == 1 {
        "  - "@ + signals[0]@
    } else {
        signal_lines(signals.drop_last()) + "\n  - "@ + signals.last()@
    }
}

/// Where line `i` of the signal list starts: each earlier line takes its
/// signal's length, four characters of `  - ` and one of line break.
pub open spec fn line_start(signals: Seq<String>, i: int) -> int
    decreases i,
{
    if i <= 0 {
        0
    } else {
        line_start(signals, i - 1) + signals[i - 1]@.len() + 5
    }
}

proof fn lemma_line_start_prefix(s: Seq<String>, p: Seq<String>, i: int)
    requires
        0 <= i <= p.len(),
        p.len() <= s.len(),
        forall|j: int| 0 <= j < p.len() ==> s[j] == p[j],
    ensures
        line_start(s, i) == line_start(p, i),
    decreases i,
{
    if i > 0 {
        lemma_line_start_prefix(s, p, i - 1);
    }
}

proof fn lemma_line_start_grows(s: Seq<String>, j: int, k: int)
    requires
        0 <= j <= k,
    ensures
        line_start(s, j) <= line_start(s, k),
        j < k ==> line_start(s, j) + s[j]@.len() + 5 <= line_start(s, k),
    decreases k,
{
    if j < k {
        lemma_line_start_grows(s, j, k - 1);
    }
}

proof fn lemma_signal_lines_len(s: Seq<String>)
    ensures
        s.len() == 0 ==> signal_lines(s).len() == 0,
        s.len() > 0 ==> signal_lines(s).len() == line_start(s, s.len() as int) - 1,
    decreases s.len(),
{
    reveal_strlit("  - ");
    reveal_strlit("\n  - ");
    let n = s.len() as int;
    if n == 1 {
        assert(line_start(s, 0) == 0);
        assert(line_start(s, 1) == s[0]@.len() + 5);
    } else if n > 1 {
        let p = s.drop_last();
        lemma_signal_lines_len(p);
        lemma_line_start_prefix(s, p, n - 1);
        assert(line_start(s, n) == line_start(s, n - 1) + s[n - 1]@.len() + 5);
    }
}

proof fn lemma_signal_line_at(s: Seq<String>, i: int)
    requires
        0 <= i < s.len(),
    ensures
        signal_lines(s).subrange(line_start(s, i), line_start(s, i) + 4 + s[i]@.len())
            == "  - "@ + s[i]@,
    decreases s.len(),
{
    reveal_strlit("  - ");
    reveal_strlit("\n  - ");
    let n = s.len() as int;
    if n == 1 {
        assert(line_start(s, 0) == 0);
        assert(signal_lines(s).subrange(0, 4 + s[0]@.len() as int) =~= signal_lines(s));
    } else {
        let p = s.drop_last();
        let head = signal_lines(p);
        let last = s[n - 1];
        lemma_signal_lines_len(p);
        lemma_line_start_prefix(s, p, i);
        lemma_line_start_prefix(s, p, n - 1);
        let whole = signal_lines(s);
        assert(whole == head + "\n  - "@ + last@);
        if i == n - 1 {
            let a = line_start(s, i);
            assert(a == head.len() + 1);
            assert(whole.subrange(a, a + 4 + last@.len()) =~= "  - "@ + last@);
        } else {
            lemma_signal_line_at(p, i);
            lemma_line_start_grows(p, i, n - 1);
            lemma_line_start_grows(p, 0, i);
            assert(line_start(p, 0) == 0);
            assert(p.len() == n - 1);
            assert(head.len() == line_start(p, n - 1) - 1);
            assert(s[i] == p[i]);
            let a = line_start(p, i);
            let b = a + 4 + p[i]@.len();
            assert(whole.subrange(a, b) =~= head.subrange(a, b));
        }
    }
}

proof fn lemma_signal_break_at(s: Seq<String>, i: int)
    requires
        0 < i < s.len(),
    ensures
        signal_lines(s)[line_start(s, i) - 1] == '\n',
    decreases s.len(),
{
    reveal_strlit("\n  - ");
    let n = s.len() as int;
    let p = s.drop_last();
    let head = signal_lines(p);
    lemma_signal_lines_len(p);
    lemma_line_start_prefix(s, p, i);
    lemma_line_start_prefix(s, p, n - 1);
    let whole = signal_lines(s);
    assert(whole == head + "\n  - "@ + s[n - 1]@);
    if i == n - 1 {
        assert(whole[head.len() as int] == '\n');
    } else {
        lemma_signal_break_at(p, i);
        lemma_line_start_grows(p, i, n - 1);
        lemma_line_start_grows(p, i - 1, i);
        lemma_line_start_grows(p, 0, i - 1);
        assert(line_start(p, 0) == 0);
        assert(p.len() == n - 1);
        assert(head.len() == line_start(p, n - 1) - 1);
        assert(whole[line_start(p, i) - 1] == head[line_start(p, i) - 1]);
    }
}

/// The signal list holds every signal, in order, each on a line of its own
/// behind `  - `: line `i` starts at `line_start(signals, i)`, lines are
/// separated by one line break, and nothing follows the last line.
pub proof fn lemma_signal_lines_list_every_signal(signals: Seq<String>)
    ensures
        signals.len() == 0 ==> signal_lines(signals).len() == 0,
        signals.len() > 0 ==> signal_lines(signals).len() == line_start(signals, signals.len() as int)
            - 1,
        forall|i: int|
            0 <= i < signals.len() ==> signal_lines(signals).subrange(
                line_start(signals, i),
                line_start(signals, i) + 4 + (#[trigger] signals[i])@.len(),
            ) == "  - "@ + signals[i]@,
        forall|i: int|
            0 < i < signals.len() ==> signal_lines(signals)[#[trigger] line_start(signals, i) - 1]
                == '\n',
{
    lemma_signal_lines_len(signals);
    assert forall|i: int|
        0 <= i < signals.len() implies signal_lines(signals).subrange(
            line_start(signals, i),
            line_start(signals, i) + 4 + (#[trigger] signals[i])@.len(),
        ) == "  - "@ + signals[i]@ by {
        lemma_signal_line_at(signals, i);
    }
    assert forall|i: int| 0 < i < signals.len() implies signal_lines(signals)[#[trigger] line_start(
        signals,
        i,
    ) - 1] == '\n' by {
        lemma_signal_break_at(signals, i);
    }
}

/// For a high-risk score the advice ends with the list of every signal (as
/// `lemma_signal_lines_list_every_signal` describes it) and a line break,
/// right after the `Tespit edilen sorunlar:` line.
pub proof fn lemma_critical_advice_lists_signals(
    risk_score: u8,
    pnl_text: Seq<char>,
    confidence_text: Seq<char>,
    signals: Seq<String>,
)
    requires
        risk_score >= 60,
    ensures
        ({
            let advice = advice_text(risk_score, pnl_text, confidence_text, signals);
            let list = signal_lines(signals) + "\n"@;
            let marker = "Tespit edilen sorunlar:\n"@;
            &&& advice.len() >= marker.len() + list.len()
            &&& advice.subrange(advice.len() - list.len(), advice.len() as int) == list
            &&& advice.subrange(
                advice.len() - list.len() - marker.len(),
                advice.len() - list.len(),
            ) == marker
        }),
{
    reveal_strlit("Tespit edilen sorunlar:\n");
    reveal_strlit(")\n\nTespit edilen sorunlar:\n");
    let advice = advice_text(risk_score, pnl_text, confidence_text, signals);
    let list = signal_lines(signals) + "\n"@;
    let marker = "Tespit edilen sorunlar:\n"@;
    let before = "🔴 **KRİTİK DURUM** — Eğitimi DURDURUN!\n\n- Risk skoru "@ + decimal(risk_score as nat)
        + " çok yüksek\n- Sistem zarar ediyor (PnL: "@ + pnl_text
        + "$)\n- Fitness fonksiyonunu gözden geçirin\n- Genom boyutunu azaltın (overfitting!)\n- Confidence threshold'u düşürün (şu an: "@
        + confidence_text + ")\n\n"@;
    assert(")\n\nTespit edilen sorunlar:\n"@ =~= ")\n\n"@ + marker) by {
        reveal_strlit(")\n\n");
    }
    assert(advice =~= before + marker + list);
    assert(advice.subrange(advice.len() - list.len(), advice.len() as int) =~= list);
    assert(advice.subrange(advice.len() - list.len() - marker.len(), advice.len() - list.len())
        =~= marker);
}

/// The advice for a risk score, by its risk band: from 60 stop training, from
/// 30 adjust, below 30 carry on. Only the first names the score, the latest PnL and
/// confidence (as the given texts) and the signals found.
pub open spec fn advice_text(
    risk_score: u8,
    pnl_text: Seq<char>,
    confidence_text: Seq<char>,
    signals: Seq<String>,
) -> Seq<char> {
    if risk_score >= 60 {
        "🔴 **KRİTİK DURUM** — Eğitimi DURDURUN!\n\n- Risk skoru "@ + decimal(risk_score as nat)
            + " çok yüksek\n- Sistem zarar ediyor (PnL: "@ + pnl_text
            + "$)\n- Fitness fonksiyonunu gözden geçirin\n- Genom boyutunu azaltın (overfitting!)\n- Confidence threshold'u düşürün (şu an: "@
            + confidence_text + ")\n\nTespit edilen sorunlar:\n"@ + signal_lines(signals) + "\n"@
    } else if risk_score >= 30 {
        "🟡 **DİKKAT** — İyileştirme Gerekli\n\n- PnL hâlâ negatif, parametreleri ayarlayın\n- İşlem sayısı yeterli mi kontrol edin\n- Mutasyon oranını artırın (plato olabilir)\n- Validation set ile doğrulayın\n"@
    } else {
        "🟢 **İYİ DURUM** — Devam Edin\n\n- Sistem sağlıklı ilerliyor\n- Mevcut parametreleri koruyun\n- Canlı test için hazırlanın\n"@
    }
}

/// Writes the training report in Markdown.
pub struct MarkdownReporter;

impl MarkdownReporter {
    /// The report for a log without records.
    pub fn empty_report() -> (r: String)
        ensures
            r@ == empty_report_text(),
    {
        String::from_str(
            "# 📊 Sentinel Eğitim Raporu\n\n> Henüz veri yok. CSV dosyası bekleniyor...\n\n*sentinel-reporter çalışıyor...*\n",
        )
    }

    fn push_signal_lines(out: &mut String, signals: &[String])
        ensures
            final(out)@ == old(out)@ + signal_lines(signals@),
    {
        let mut i: usize = 0;
        while i < signals.len()
            invariant
                i <= signals@.len(),
                out@ == old(out)@ + signal_lines(signals@.subrange(0, i as int)),
            decreases signals@.len() - i,
        {
            let ghost before = signals@.subrange(0, i as int);
            let ghost after = signals@.subrange(0, i + 1);
            assert(after.drop_last() =~= before);
            if i == 0 {
                out.append("  - ");
            } else {
                out.append("\n  - ");
            }
            out.append(signals[i].as_str());
            proof {
                if i == 0 {
                    assert(after =~= seq![signals@[0]]);
                }
            }
            i = i + 1;
        }
        assert(signals@.subrange(0, signals@.len() as int) =~= signals@);
    }

    /// The advice section for a risk score. `pnl_text` and `confidence_text`
    /// are the latest PnL and confidence as they are to be printed (four and
    /// three decimals), and `signals` the overfitting signals found.
    pub fn generate_advice(
        risk_score: u8,
        pnl_text: &str,
        confidence_text: &str,
        signals: &[String],
    ) -> (r: String)
        ensures
            r@ == advice_text(risk_score, pnl_text@, confidence_text@, signals@),
    {
        if risk_score >= 60 {
            let mut out = String::from_str(
                "🔴 **KRİTİK DURUM** — Eğitimi DURDURUN!\n\n- Risk skoru ",
            );
            push_decimal(&mut out, risk_score as u64);
            out.append(" çok yüksek\n- Sistem zarar ediyor (PnL: ");
            out.append(pnl_text);
            out.append(
                "$)\n- Fitness fonksiyonunu gözden geçirin\n- Genom boyutunu azaltın (overfitting!)\n- Confidence threshold'u düşürün (şu an: ",
            );
            out.append(confidence_text);
            out.append(")\n\nTespit edilen sorunlar:\n");
            Self::push_signal_lines(&mut out, signals);
            out.append("\n");
            assert(out@ =~= advice_text(risk_score, pnl_text@, confidence_text@, signals@));
            out
        } else if risk_score >= 30 {
            String::from_str(
                "🟡 **DİKKAT** — İyileştirme Gerekli\n\n- PnL hâlâ negatif, parametreleri ayarlayın\n- İşlem sayısı yeterli mi kontrol edin\n- Mutasyon oranını artırın (plato olabilir)\n- Validation set ile doğrulayın\n",
            )
        } else {
            String::from_str(
                "🟢 **İYİ DURUM** — Devam Edin\n\n- Sistem sağlıklı ilerliyor\n- Mevcut parametreleri koruyun\n- Canlı test için hazırlanın\n",
            )
        }
    }
}

/// The advice follows the risk bands of the score: a high-risk score (60 and
/// up) opens with the order to stop training, a medium-risk score (30 to 59)
/// with the call for caution, a low-risk score with the advice to carry on.
pub proof fn lemma_advice_follows_risk_band(
    risk_score: u8,
    pnl_text: Seq<char>,
    confidence_text: Seq<char>,
    signals: Seq<String>,
)
    ensures
        ({
            let advice = advice_text(risk_score, pnl_text, confidence_text, signals);
            let stop = "🔴 **KRİTİK DURUM** — Eğitimi DURDURUN!"@;
            let caution = "🟡 **DİKKAT** — İyileştirme Gerekli"@;
            let carry_on = "🟢 **İYİ DURUM** — Devam Edin"@;
            match risk_status(risk_score as int) {
                Status::Danger => advice.len() >= stop.len() && advice.take(stop.len() as int) == stop,
                Status::Warning => advice.len() >= caution.len() && advice.take(caution.len() as int) == caution,
                Status::Success => advice.len() >= carry_on.len() && advice.take(carry_on.len() as int) == carry_on,
            }
        }),
{
    let advice = advice_text(risk_score, pnl_text, confidence_text, signals);
    reveal_strlit("🔴 **KRİTİK DURUM** — Eğitimi DURDURUN!");
    reveal_strlit("🟡 **DİKKAT** — İyileştirme Gerekli");
    reveal_strlit("🟢 **İYİ DURUM** — Devam Edin");
    reveal_strlit("🔴 **KRİTİK DURUM** — Eğitimi DURDURUN!\n\n- Risk skoru ");
    reveal_strlit(
        "🟡 **DİKKAT** — İyileştirme Gerekli\n\n- PnL hâlâ negatif, parametreleri ayarlayın\n- İşlem sayısı yeterli mi kontrol edin\n- Mutasyon oranını artırın (plato olabilir)\n- Validation set ile doğrulayın\n",
    );
    reveal_strlit(
        "🟢 **İYİ DURUM** — Devam Edin\n\n- Sistem sağlıklı ilerliyor\n- Mevcut parametreleri koruyun\n- Canlı test için hazırlanın\n",
    );
    if risk_score >= 60 {
        let head = "🔴 **KRİTİK DURUM** — Eğitimi DURDURUN!\n\n- Risk skoru "@;
        let stop = "🔴 **KRİTİK DURUM** — Eğitimi DURDURUN!"@;
        let rest = decimal(risk_score as nat) + " çok yüksek\n- Sistem zarar ediyor (PnL: "@ + pnl_text
            + "$)\n- Fitness fonksiyonunu gözden geçirin\n- Genom boyutunu azaltın (overfitting!)\n- Confidence threshold'u düşürün (şu an: "@
            + confidence_text + ")\n\nTespit edilen sorunlar:\n"@ + signal_lines(signals) + "\n"@;
        assert(advice =~= head + rest);
        assert(head.take(stop.len() as int) =~= stop);
        assert((head + rest).take(stop.len() as int) =~= head.take(stop.len() as int));
    } else if risk_score >= 30 {
        let caution = "🟡 **DİKKAT** — İyileştirme Gerekli"@;
        assert(advice.take(caution.len() as int) =~= caution);
    } else {
        let carry_on = "🟢 **İYİ DURUM** — Devam Edin"@;
        assert(advice.take(carry_on.len() as int) =~= carry_on);
    }
}

} // verus!
