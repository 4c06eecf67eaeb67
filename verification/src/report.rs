//! The text of a registry's report, built from each metric's own report line.
use vstd::prelude::*;

verus! {

/// The characters of each string.
pub open spec fn views(v: Seq<String>) -> Seq<Seq<char>> {
    v.map_values(|s: String| s@)
}

/// One line per entry: two tabs, the entry, a newline.
pub open spec fn report_lines(entries: Seq<Seq<char>>) -> Seq<char>
    decreases entries.len(),
{
    if entries.len() == 0 {
        Seq::empty()
    } else {
        report_lines(entries.drop_last()) + "\t\t"@ + entries.last() + "\n"@
    }
}

/// A titled section: nothing for no entries, otherwise a tab, the title, a colon and a newline,
/// then the entries' lines.
pub open spec fn section(title: Seq<char>, entries: Seq<Seq<char>>) -> Seq<char> {
    if entries.len() == 0 {
        Seq::empty()
    } else {
        "\t"@ + title + ":\n"@ + report_lines(entries)
    }
}

/// A kind of metric with none registered gets no section at all.
pub proof fn lemma_section_empty(title: Seq<char>)
    ensures
        section(title, Seq::empty()) == Seq::<char>::empty(),
{
}

/// A section with one entry is its title line, then that entry on a line of its own.
pub proof fn lemma_section_single(title: Seq<char>, x: Seq<char>)
    ensures
        section(title, seq![x]) == "\t"@ + title + ":\n"@ + "\t\t"@ + x + "\n"@,
{
    let e = seq![x];
    assert(e.drop_last() =~= Seq::<Seq<char>>::empty());
    assert(report_lines(e.drop_last()) =~= Seq::<char>::empty());
    assert(report_lines(e) =~= "\t\t"@ + x + "\n"@);
    let head = "\t"@ + title + ":\n"@;
    assert(head + ("\t\t"@ + x + "\n"@) =~= head + "\t\t"@ + x + "\n"@);
}

/// The lines of two runs of entries, one after the other, are the lines of the first run
/// followed by the lines of the second: no entry is dropped, repeated or moved.
pub proof fn lemma_report_lines_concat(a: Seq<Seq<char>>, b: Seq<Seq<char>>)
    ensures
        report_lines(a + b) == report_lines(a) + report_lines(b),
    decreases b.len(),
{
    if b.len() == 0 {
        assert(a + b =~= a);
        assert(report_lines(a) + report_lines(b) =~= report_lines(a));
    } else {
        lemma_report_lines_concat(a, b.drop_last());
        assert((a + b).drop_last() =~= a + b.drop_last());
        assert((a + b).last() == b.last());
        let ra = report_lines(a);
        let rb = report_lines(b.drop_last());
        assert(ra + rb + "\t\t"@ + b.last() + "\n"@ =~= ra + (rb + "\t\t"@ + b.last() + "\n"@));
    }
}

/// Registering one more metric of a kind adds exactly its report line at the end of that
/// kind's section, so every entry is listed, in order.
pub proof fn lemma_section_push(title: Seq<char>, entries: Seq<Seq<char>>, x: Seq<char>)
    requires
        entries.len() > 0,
    ensures
        section(title, entries.push(x)) == section(title, entries) + "\t\t"@ + x + "\n"@,
{
    assert(entries.push(x).drop_last() =~= entries);
    assert(section(title, entries.push(x)) =~= section(title, entries) + "\t\t"@ + x + "\n"@);
}

/// Appends the section titled `title` for `entries` to `report`.
fn append_section(report: &mut String, title: &str, entries: &Vec<String>)
    ensures
        final(report)@ == old(report)@ + section(title@, views(entries@)),
{
    if entries.len() > 0 {
        let ghost before = report@;
        report.append("\t");
        report.append(title);
        report.append(":\n");
        let ghost head = report@;
        let ghost es = views(entries@);
        assert(es.take(0) =~= Seq::<Seq<char>>::empty());
        assert(head =~= head + report_lines(es.take(0)));
        let mut i: usize = 0;
        while i < entries.len()
            invariant
                i <= entries.len(),
                es == views(entries@),
                report@ == head + report_lines(es.take(i as int)),
            decreases entries.len() - i,
        {
            report.append("\t\t");
            report.append(entries[i].as_str());
            report.append("\n");
            proof {
                assert(es.take(i + 1).drop_last() =~= es.take(i as int));
                assert(es[i as int] == entries@[i as int]@);
                assert(report@ =~= head + report_lines(es.take(i + 1)));
            }
            i += 1;
        }
        assert(es.take(i as int) =~= es);
        assert(report@ =~= before + section(title@, es));
    } else {
        assert(report@ =~= report@ + section(title@, views(entries@)));
    }
}

/// A registry's report: a header line with its name, then a section of report lines for each
/// kind of metric it holds, in the order counters, ratios, histograms, meters.
pub fn registry_report(
    name: &String,
    counters: &Vec<String>,
    ratios: &Vec<String>,
    histograms: &Vec<String>,
    meters: &Vec<String>,
) -> (report: String)
    ensures
        report@ == "\n"@ + name@ + " Metrics\n"@ + section("Counters"@, views(counters@))
            + section("Ratios"@, views(ratios@)) + section("Histograms"@, views(histograms@))
            + section("Meters"@, views(meters@)),
{
    let mut report_string = String::new();
    report_string.append("\n");
    report_string.append(name.as_str());
    report_string.append(" Metrics\n");
    append_section(&mut report_string, "Counters", counters);
    append_section(&mut report_string, "Ratios", ratios);
    append_section(&mut report_string, "Histograms", histograms);
    append_section(&mut report_string, "Meters", meters);
    report_string
}

} // verus!
